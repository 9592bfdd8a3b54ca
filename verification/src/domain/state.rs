//! Per-domain resolution state and the route intents derived from it.
use vstd::prelude::*;
use crate::domain::intent::{
    intent_views, spec_action_from_policy, IntentView, RouteIntent, RouteIntentAction,
    RouteIntentOwner,
};
use crate::domain::policy::{normalize_domain, normalize_spec, DomainPolicyAction};
use crate::domain::resolver::{record_ips, DomainRecord, RecordView, ResolveError};
use crate::net::IpNetwork;
use crate::text::str_chars;

verus! {

/// Runtime state belonging to one domain.
#[derive(Clone, Debug)]
pub struct DomainStateEntry {
    pub domain: String,
    pub action: DomainPolicyAction,
    pub generation: u64,
    pub record: Option<DomainRecord>,
    pub intents: Vec<RouteIntent>,
    pub last_error: Option<String>,
}

/// The value of a domain state entry.
pub struct EntryView {
    pub domain: Seq<char>,
    pub action: DomainPolicyAction,
    pub generation: u64,
    pub record: Option<RecordView>,
    pub intents: Seq<IntentView>,
    pub last_error: Option<Seq<char>>,
}

impl View for DomainStateEntry {
    type V = EntryView;

    open spec fn view(&self) -> EntryView {
        EntryView {
            domain: self.domain@,
            action: self.action,
            generation: self.generation,
            record: match self.record {
                Some(r) => Some(r@),
                None => None,
            },
            intents: intent_views(self.intents@),
            last_error: match self.last_error {
                Some(e) => Some(e@),
                None => None,
            },
        }
    }
}

/// The generation after `g`, wrapping at `u64::MAX`.
pub open spec fn next_generation(g: u64) -> u64 {
    if g == u64::MAX {
        0
    } else {
        (g + 1) as u64
    }
}

/// The intents a domain's record yields: one host route per answer, with
/// the record's generation and expiry; none without a record or when the
/// action is `NoOverride`.
pub open spec fn intents_for(
    domain: Seq<char>,
    action: DomainPolicyAction,
    record: Option<RecordView>,
) -> Seq<IntentView> {
    match (record, spec_action_from_policy(action)) {
        (Some(r), Some(a)) => Seq::new(
            record_ips(r).len(),
            |k: int|
                IntentView {
                    destination: IpNetwork::host_spec(record_ips(r)[k]),
                    action: a,
                    owner: domain,
                    generation: r.generation,
                    expires_at: r.expires_at,
                },
        ),
        _ => Seq::empty(),
    }
}

/// An entry once a new resolution began: the next generation, no error.
pub open spec fn begun(e: EntryView) -> EntryView {
    EntryView { generation: next_generation(e.generation), last_error: None, ..e }
}

/// An entry given a resolver answer: taken, with its intents, only when the
/// answer carries the entry's generation; otherwise unchanged.
pub open spec fn answered(e: EntryView, record: RecordView) -> EntryView {
    if record.generation == e.generation {
        EntryView {
            record: Some(record),
            last_error: None,
            intents: intents_for(e.domain, e.action, Some(record)),
            ..e
        }
    } else {
        e
    }
}

/// An entry given a resolution failure of request `generation`: recorded
/// only when that request is the entry's current one.
pub open spec fn rejected(e: EntryView, generation: u64, error: Seq<char>) -> EntryView {
    if generation == e.generation {
        EntryView { last_error: Some(error), ..e }
    } else {
        e
    }
}

/// The entry counts as expired at `now`: it has no record or the record
/// has expired.
pub open spec fn entry_expired_at(e: EntryView, now: u64) -> bool {
    match e.record {
        None => true,
        Some(r) => now >= r.expires_at,
    }
}

/// Why a resolution failed, as kept in the state.
#[derive(Clone, Debug, PartialEq, Eq)]
pub enum ResolveStateError {
    NxDomain,
    ServFail,
    Timeout,
    Cancelled,
    Other(String),
}

/// The text of a state error.
pub open spec fn state_error_text(e: ResolveStateError) -> Seq<char> {
    match e {
        ResolveStateError::NxDomain => "NXDOMAIN"@,
        ResolveStateError::ServFail => "SERVFAIL"@,
        ResolveStateError::Timeout => "DNS resolution timed out"@,
        ResolveStateError::Cancelled => "DNS resolution cancelled"@,
        ResolveStateError::Other(m) => m@,
    }
}

impl ResolveStateError {
    /// The error's message.
    pub fn message(&self) -> (s: String)
        ensures
            s@ == state_error_text(*self),
    {
        match self {
            ResolveStateError::NxDomain => String::from_str("NXDOMAIN"),
            ResolveStateError::ServFail => String::from_str("SERVFAIL"),
            ResolveStateError::Timeout => String::from_str("DNS resolution timed out"),
            ResolveStateError::Cancelled => String::from_str("DNS resolution cancelled"),
            ResolveStateError::Other(m) => m.clone(),
        }
    }

    /// The state error for a resolver error: the same kind, the same text.
    pub fn from_resolve_error(error: &ResolveError) -> (r: ResolveStateError)
        ensures
            r == match *error {
                ResolveError::NxDomain => ResolveStateError::NxDomain,
                ResolveError::ServFail => ResolveStateError::ServFail,
                ResolveError::Timeout => ResolveStateError::Timeout,
                ResolveError::Cancelled => ResolveStateError::Cancelled,
                ResolveError::Other(m) => ResolveStateError::Other(m),
            },
    {
        match error {
            ResolveError::NxDomain => ResolveStateError::NxDomain,
            ResolveError::ServFail => ResolveStateError::ServFail,
            ResolveError::Timeout => ResolveStateError::Timeout,
            ResolveError::Cancelled => ResolveStateError::Cancelled,
            ResolveError::Other(m) => ResolveStateError::Other(m.clone()),
        }
    }
}

impl DomainStateEntry {
    /// A fresh entry for a domain (normalized), generation 0, no record.
    pub fn new(domain: &str, action: DomainPolicyAction) -> (r: DomainStateEntry)
        ensures
            r@ == (EntryView {
                domain: normalize_spec(domain@),
                action,
                generation: 0,
                record: None,
                intents: Seq::empty(),
                last_error: None,
            }),
    {
        let r = DomainStateEntry {
            domain: normalize_domain(domain),
            action,
            generation: 0,
            record: None,
            intents: Vec::new(),
            last_error: None,
        };
        assert(intent_views(r.intents@) =~= Seq::<IntentView>::empty());
        r
    }

    /// Starts a new resolution: the generation advances (wrapping) and the
    /// last error is cleared. Returns the new generation.
    pub fn begin_resolution(&mut self) -> (g: u64)
        ensures
            g == next_generation(old(self).generation),
            final(self)@ == begun(old(self)@),
    {
        self.generation = self.generation.wrapping_add(1);
        self.last_error = None;
        self.generation
    }

    /// Accepts a resolver answer only if it belongs to the current
    /// generation, so that a late answer to an older request cannot
    /// overwrite a newer one. On acceptance the intents are rebuilt.
    pub fn accept_record(&mut self, record: DomainRecord) -> (accepted: bool)
        ensures
            accepted == (record.generation == old(self).generation),
            final(self)@ == answered(old(self)@, record@),
    {
        if record.generation != self.generation {
            return false;
        }
        self.record = Some(record);
        self.last_error = None;
        self.rebuild_intents();
        true
    }

    /// Records a resolution failure only if it belongs to the current
    /// generation.
    pub fn reject_record(&mut self, generation: u64, error: ResolveStateError) -> (accepted: bool)
        ensures
            accepted == (generation == old(self).generation),
            final(self)@ == rejected(old(self)@, generation, state_error_text(error)),
    {
        if generation != self.generation {
            return false;
        }
        self.last_error = Some(error.message());
        true
    }

    /// Drops the record and its intents.
    pub fn clear_record(&mut self)
        ensures
            final(self)@ == (EntryView { record: None, intents: Seq::empty(), ..old(self)@ }),
    {
        self.record = None;
        self.intents.clear();
        assert(intent_views(self.intents@) =~= Seq::<IntentView>::empty());
    }

    /// Recomputes the intents from the record and the action.
    pub fn rebuild_intents(&mut self)
        ensures
            final(self)@ == (EntryView {
                intents: intents_for(old(self)@.domain, old(self)@.action, old(self)@.record),
                ..old(self)@
            }),
            forall|k: int| 0 <= k < final(self)@.intents.len()
                ==> spec_action_from_policy(old(self).action) == Some(#[trigger] final(self)@.intents[k].action),
    {
        proof {
            lemma_intents_follow_policy(self@.domain, self.action, self@.record);
        }
        self.intents.clear();
        assert(intent_views(self.intents@) =~= Seq::<IntentView>::empty());
        let action = match RouteIntentAction::from_policy(self.action) {
            Some(a) => a,
            None => {
                assert(intents_for(self.domain@, self.action, self@.record) =~= Seq::<IntentView>::empty());
                return;
            },
        };
        let ips = match &self.record {
            Some(record) => record.all_ips(),
            None => {
                assert(intents_for(self.domain@, self.action, self@.record) =~= Seq::<IntentView>::empty());
                return;
            },
        };
        let ghost r = self@.record->0;
        let ghost target = intents_for(self.domain@, self.action, self@.record);
        let mut k: usize = 0;
        while k < ips.len()
            invariant
                k <= ips.len(),
                self.domain == old(self).domain,
                self.action == old(self).action,
                self.generation == old(self).generation,
                self.record == old(self).record,
                self.last_error == old(self).last_error,
                ips@ == record_ips(r),
                self@.record == Some(r),
                spec_action_from_policy(self.action) == Some(action),
                target == intents_for(self.domain@, self.action, self@.record),
                target.len() == ips@.len(),
                intent_views(self.intents@) == target.take(k as int),
            decreases ips.len() - k,
        {
            let intent = RouteIntent::from_ip(
                ips[k],
                action,
                RouteIntentOwner::Domain(self.domain.clone()),
                match &self.record {
                    Some(record) => record.generation,
                    None => 0,
                },
                match &self.record {
                    Some(record) => record.expires_at,
                    None => 0,
                },
            );
            assert(intent@ == target[k as int]);
            let ghost before = intent_views(self.intents@);
            self.intents.push(intent);
            assert(intent_views(self.intents@) =~= before.push(intent@));
            k += 1;
            assert(intent_views(self.intents@) =~= target.take(k as int));
        }
        assert(target.take(ips@.len() as int) =~= target);
    }

    /// Whether the entry has no record or its record expired at `now`.
    pub fn is_expired_at(&self, now: u64) -> (b: bool)
        ensures
            b == entry_expired_at(self@, now),
    {
        match &self.record {
            Some(record) => record.is_expired_at(now),
            None => true,
        }
    }
}


/// The values of a sequence of entries.
pub open spec fn entry_views(v: Seq<DomainStateEntry>) -> Seq<EntryView> {
    Seq::new(v.len(), |i: int| v[i]@)
}

/// The views of a sequence of strings.
pub open spec fn string_views(v: Seq<String>) -> Seq<Seq<char>> {
    Seq::new(v.len(), |i: int| v[i]@)
}

/// The intents wanted by unexpired entries, entry by entry.
pub open spec fn desired_spec(entries: Seq<EntryView>, now: u64) -> Seq<IntentView>
    decreases entries.len(),
{
    if entries.len() == 0 {
        Seq::empty()
    } else {
        let prev = desired_spec(entries.drop_last(), now);
        if entry_expired_at(entries.last(), now) {
            prev
        } else {
            prev + entries.last().intents
        }
    }
}

/// The domains of the entries without a record or with an expired one.
pub open spec fn refresh_spec(entries: Seq<EntryView>, now: u64) -> Seq<Seq<char>>
    decreases entries.len(),
{
    if entries.len() == 0 {
        Seq::empty()
    } else {
        let prev = refresh_spec(entries.drop_last(), now);
        if entries.last().record is None || entry_expired_at(entries.last(), now) {
            prev.push(entries.last().domain)
        } else {
            prev
        }
    }
}

/// The state of every domain, keyed by normalized domain name.
///
/// Entries keep the order in which their domains were first inserted.
#[derive(Clone, Debug)]
pub struct DomainState {
    keys: Vec<String>,
    entries: Vec<DomainStateEntry>,
}

impl DomainState {
    /// The normalized domain names, one per entry.
    pub closed spec fn spec_keys(self) -> Seq<Seq<char>> {
        string_views(self.keys@)
    }

    /// The entries, in insertion order.
    pub closed spec fn spec_entries(self) -> Seq<EntryView> {
        entry_views(self.entries@)
    }

    /// One key per entry, and no key twice.
    pub closed spec fn wf(self) -> bool {
        &&& self.keys@.len() == self.entries@.len()
        &&& forall|i: int, j: int| 0 <= i < j < self.keys@.len() ==> #[trigger] self.keys@[i]@ != #[trigger] self.keys@[j]@
    }

    /// The position of `key`, if present.
    pub open spec fn index_of(self, key: Seq<char>) -> int {
        choose|i: int| 0 <= i < self.spec_keys().len() && self.spec_keys()[i] == key
    }

    pub open spec fn has_key(self, key: Seq<char>) -> bool {
        exists|i: int| 0 <= i < self.spec_keys().len() && self.spec_keys()[i] == key
    }

    pub proof fn lemma_wf_lengths(self)
        requires
            self.wf(),
        ensures
            self.spec_keys().len() == self.spec_entries().len(),
            forall|i: int, j: int| 0 <= i < j < self.spec_keys().len() ==> self.spec_keys()[i] != self.spec_keys()[j],
    {
        assert forall|i: int, j: int| 0 <= i < j < self.spec_keys().len() implies self.spec_keys()[i] != self.spec_keys()[j] by {
            assert(self.keys@[i]@ != self.keys@[j]@);
        }
    }

    /// In a well-formed state a key sits at exactly one position.
    pub proof fn lemma_index_of_unique(self, key: Seq<char>, i: int)
        requires
            self.wf(),
            0 <= i < self.spec_keys().len(),
            self.spec_keys()[i] == key,
        ensures
            self.has_key(key),
            self.index_of(key) == i,
    {
        self.lemma_wf_lengths();
        assert(self.has_key(key));
        let j = self.index_of(key);
        if j != i {
            if j < i {
                assert(self.spec_keys()[j] != self.spec_keys()[i]);
            } else {
                assert(self.spec_keys()[i] != self.spec_keys()[j]);
            }
        }
    }

    /// An empty state.
    pub fn new() -> (r: DomainState)
        ensures
            r.wf(),
            r.spec_keys() == Seq::<Seq<char>>::empty(),
            r.spec_entries() == Seq::<EntryView>::empty(),
    {
        let r = DomainState { keys: Vec::new(), entries: Vec::new() };
        assert(r.spec_keys() =~= Seq::<Seq<char>>::empty());
        assert(r.spec_entries() =~= Seq::<EntryView>::empty());
        r
    }

    fn find(&self, key: &Vec<char>) -> (r: Option<usize>)
        requires
            self.wf(),
        ensures
            match r {
                Some(i) => i < self.spec_keys().len() && self.spec_keys()[i as int] == key@
                    && self.index_of(key@) == i,
                None => !self.has_key(key@),
            },
    {
        let mut i: usize = 0;
        while i < self.keys.len()
            invariant
                self.wf(),
                i <= self.keys.len(),
                forall|k: int| 0 <= k < i ==> self.spec_keys()[k] != key@,
            decreases self.keys.len() - i,
        {
            let k = str_chars(self.keys[i].as_str());
            if crate::text::chars_eq(&k, key) {
                proof {
                    self.lemma_wf_lengths();
                    assert(self.spec_keys()[i as int] == key@);
                    let j = self.index_of(key@);
                    assert(self.has_key(key@));
                    if j != i {
                        if j < i {
                            assert(self.spec_keys()[j] != self.spec_keys()[i as int]);
                        } else {
                            assert(self.spec_keys()[i as int] != self.spec_keys()[j]);
                        }
                    }
                }
                return Some(i);
            }
            i += 1;
        }
        None
    }

    /// The entry of a domain (normalized before lookup).
    pub fn get(&self, domain: &str) -> (r: Option<&DomainStateEntry>)
        requires
            self.wf(),
        ensures
            match r {
                Some(e) => self.has_key(normalize_spec(domain@))
                    && e@ == self.spec_entries()[self.index_of(normalize_spec(domain@))],
                None => !self.has_key(normalize_spec(domain@)),
            },
    {
        let key = normalize_domain(domain);
        let k = str_chars(key.as_str());
        match self.find(&k) {
            Some(i) => Some(&self.entries[i]),
            None => None,
        }
    }

    /// Mutable access to the entry of a domain (normalized before lookup).
    pub fn get_mut(&mut self, domain: &str) -> (r: Option<&mut DomainStateEntry>)
        requires
            old(self).wf(),
        ensures
            final(self).wf(),
            final(self).spec_keys() == old(self).spec_keys(),
            match r {
                Some(e) => old(self).has_key(normalize_spec(domain@))
                    && (*e)@ == old(self).spec_entries()[old(self).index_of(normalize_spec(domain@))]
                    && final(self).spec_entries() == old(self).spec_entries().update(
                        old(self).index_of(normalize_spec(domain@)),
                        (*final(e))@,
                    ),
                None => !old(self).has_key(normalize_spec(domain@)) && final(self).spec_entries()
                    == old(self).spec_entries(),
            },
    {
        let key = normalize_domain(domain);
        let k = str_chars(key.as_str());
        match self.find(&k) {
            Some(i) => {
                proof {
                    self.lemma_wf_lengths();
                }
                Some(&mut self.entries[i])
            },
            None => None,
        }
    }

    /// The entry of a domain, inserted with `action` if the domain is new.
    pub fn upsert(&mut self, domain: &str, action: DomainPolicyAction) -> (e: &mut DomainStateEntry)
        requires
            old(self).wf(),
        ensures
            final(self).wf(),
            old(self).has_key(normalize_spec(domain@)) ==> {
                &&& final(self).spec_keys() == old(self).spec_keys()
                &&& (*e)@ == old(self).spec_entries()[old(self).index_of(normalize_spec(domain@))]
                &&& final(self).spec_entries() == old(self).spec_entries().update(
                    old(self).index_of(normalize_spec(domain@)),
                    (*final(e))@,
                )
            },
            !old(self).has_key(normalize_spec(domain@)) ==> {
                &&& final(self).spec_keys() == old(self).spec_keys().push(normalize_spec(domain@))
                &&& (*e)@ == (EntryView {
                    domain: normalize_spec(normalize_spec(domain@)),
                    action,
                    generation: 0,
                    record: None,
                    intents: Seq::empty(),
                    last_error: None,
                })
                &&& final(self).spec_entries() == old(self).spec_entries().push((*final(e))@)
            },
    {
        let key = normalize_domain(domain);
        let k = str_chars(key.as_str());
        match self.find(&k) {
            Some(i) => {
                proof {
                    self.lemma_wf_lengths();
                }
                &mut self.entries[i]
            },
            None => {
                let entry = DomainStateEntry::new(key.as_str(), action);
                let ghost old_keys = self.spec_keys();
                let ghost old_entries = self.spec_entries();
                self.keys.push(key);
                self.entries.push(entry);
                assert(self.spec_keys() =~= old_keys.push(k@));
                proof {
                    assert forall|i: int, j: int| 0 <= i < j < self.keys@.len() implies #[trigger] self.keys@[i]@ != #[trigger] self.keys@[j]@ by {
                        if j == self.keys@.len() - 1 {
                            assert(self.spec_keys()[i] == old_keys[i]);
                            assert(!(old_keys[i] == k@));
                        }
                    }
                }
                let n = self.entries.len();
                assert(self.spec_entries() =~= old_entries.push(self.entries@[n - 1]@));
                &mut self.entries[n - 1]
            },
        }
    }

    /// Removes the entry of a domain and returns it.
    pub fn remove(&mut self, domain: &str) -> (r: Option<DomainStateEntry>)
        requires
            old(self).wf(),
        ensures
            final(self).wf(),
            match r {
                Some(e) => old(self).has_key(normalize_spec(domain@))
                    && e@ == old(self).spec_entries()[old(self).index_of(normalize_spec(domain@))]
                    && final(self).spec_keys() == old(self).spec_keys().remove(old(self).index_of(normalize_spec(domain@)))
                    && final(self).spec_entries() == old(self).spec_entries().remove(old(self).index_of(normalize_spec(domain@))),
                None => !old(self).has_key(normalize_spec(domain@)) && final(self).spec_keys()
                    == old(self).spec_keys() && final(self).spec_entries()
                    == old(self).spec_entries(),
            },
    {
        let key = normalize_domain(domain);
        let k = str_chars(key.as_str());
        match self.find(&k) {
            Some(i) => {
                let ghost old_keys = self.keys@;
                let ghost old_entries = self.entries@;
                proof {
                    self.lemma_wf_lengths();
                }
                self.keys.remove(i);
                let e = self.entries.remove(i);
                assert(self.spec_keys() =~= string_views(old_keys).remove(i as int));
                assert(self.spec_entries() =~= entry_views(old_entries).remove(i as int));
                proof {
                    assert forall|a: int, b: int| 0 <= a < b < self.keys@.len() implies #[trigger] self.keys@[a]@ != #[trigger] self.keys@[b]@ by {
                        let a2 = if a < i { a } else { a + 1 };
                        let b2 = if b < i { b } else { b + 1 };
                        assert(self.keys@[a] == old_keys[a2]);
                        assert(self.keys@[b] == old_keys[b2]);
                        assert(old_keys[a2]@ != old_keys[b2]@);
                    }
                }
                Some(e)
            },
            None => None,
        }
    }

    pub fn len(&self) -> (n: usize)
        requires
            self.wf(),
        ensures
            n == self.spec_entries().len(),
    {
        self.entries.len()
    }

    pub fn is_empty(&self) -> (b: bool)
        requires
            self.wf(),
        ensures
            b == (self.spec_entries().len() == 0),
    {
        self.entries.len() == 0
    }

    /// The intents of every entry that is not expired at `now`.
    pub fn desired_intents(&self, now: u64) -> (r: Vec<RouteIntent>)
        ensures
            intent_views(r@) == desired_spec(self.spec_entries(), now),
    {
        let mut r: Vec<RouteIntent> = Vec::new();
        let mut i: usize = 0;
        assert(entry_views(self.entries@).take(0) =~= Seq::<EntryView>::empty());
        assert(intent_views(r@) =~= Seq::<IntentView>::empty());
        while i < self.entries.len()
            invariant
                i <= self.entries.len(),
                intent_views(r@) == desired_spec(entry_views(self.entries@).take(i as int), now),
            decreases self.entries.len() - i,
        {
            let entry = &self.entries[i];
            let ghost es = entry_views(self.entries@).take(i + 1);
            assert(es.drop_last() =~= entry_views(self.entries@).take(i as int));
            assert(es.last() == entry@);
            if !entry.is_expired_at(now) {
                let ghost base = intent_views(r@);
                let mut k: usize = 0;
                while k < entry.intents.len()
                    invariant
                        k <= entry.intents.len(),
                        intent_views(r@) == base + intent_views(entry.intents@).take(k as int),
                    decreases entry.intents.len() - k,
                {
                    let copy = entry.intents[k].duplicate();
                    let ghost prev = intent_views(r@);
                    r.push(copy);
                    assert(intent_views(r@) =~= prev.push(entry.intents@[k as int]@));
                    k += 1;
                    assert(intent_views(r@) =~= base + intent_views(entry.intents@).take(k as int));
                }
                assert(intent_views(entry.intents@).take(entry.intents@.len() as int) =~= intent_views(entry.intents@));
            }
            i += 1;
        }
        assert(entry_views(self.entries@).take(self.entries@.len() as int) =~= entry_views(self.entries@));
        r
    }

    /// The domains that have no record or an expired one at `now`.
    pub fn domains_needing_refresh(&self, now: u64) -> (r: Vec<String>)
        ensures
            string_views(r@) == refresh_spec(self.spec_entries(), now),
            string_views(r@) == self.spec_entries().filter(stale_at(now)).map_values(|e: EntryView| e.domain),
    {
        proof {
            lemma_refresh_lists_stale_entries(self.spec_entries(), now);
        }
        let mut r: Vec<String> = Vec::new();
        let mut i: usize = 0;
        assert(entry_views(self.entries@).take(0) =~= Seq::<EntryView>::empty());
        assert(string_views(r@) =~= Seq::<Seq<char>>::empty());
        while i < self.entries.len()
            invariant
                i <= self.entries.len(),
                string_views(r@) == refresh_spec(entry_views(self.entries@).take(i as int), now),
            decreases self.entries.len() - i,
        {
            let entry = &self.entries[i];
            let ghost es = entry_views(self.entries@).take(i + 1);
            assert(es.drop_last() =~= entry_views(self.entries@).take(i as int));
            assert(es.last() == entry@);
            if entry.record.is_none() || entry.is_expired_at(now) {
                let ghost base = string_views(r@);
                r.push(entry.domain.clone());
                assert(string_views(r@) =~= base.push(entry.domain@));
            }
            i += 1;
        }
        assert(entry_views(self.entries@).take(self.entries@.len() as int) =~= entry_views(self.entries@));
        r
    }

    /// The entries in insertion order.
    pub fn entries(&self) -> (r: &[DomainStateEntry])
        ensures
            entry_views(r@) == self.spec_entries(),
    {
        self.entries.as_slice()
    }
}


/// A newer request makes the answers to an older one stale: once a second
/// resolution began, an answer or a failure carrying the first request's
/// generation leaves the entry as it is.
pub proof fn lemma_late_answer_is_stale(e: EntryView, record: RecordView, error: Seq<char>)
    requires
        record.generation == begun(e).generation,
    ensures
        answered(begun(begun(e)), record) == begun(begun(e)),
        rejected(begun(begun(e)), begun(e).generation, error) == begun(begun(e)),
{
}

/// The answer to the current request is taken, with one intent per address.
pub proof fn lemma_current_answer_is_taken(e: EntryView, record: RecordView)
    requires
        record.generation == begun(e).generation,
    ensures
        answered(begun(e), record).record == Some(record),
        answered(begun(e), record).intents == intents_for(e.domain, e.action, Some(record)),
        spec_action_from_policy(e.action) is Some ==> answered(begun(e), record).intents.len() == record_ips(record).len(),
{
}

/// Whether an entry needs re-resolution at `now`.
pub open spec fn stale_at(now: u64) -> spec_fn(EntryView) -> bool {
    |e: EntryView| entry_expired_at(e, now)
}

/// The routes of a domain's record follow its policy: each intent carries
/// the route action that the policy action converts to, is the host route
/// to the address at the same position of the record, and has the record's
/// generation and expiry and the domain as owner. There is one intent per
/// address, unless there is no record or the policy does not override.
pub proof fn lemma_intents_follow_policy(domain: Seq<char>, action: DomainPolicyAction, record: Option<RecordView>)
    ensures
        forall|k: int| 0 <= k < intents_for(domain, action, record).len() ==> {
            let x = #[trigger] intents_for(domain, action, record)[k];
            &&& spec_action_from_policy(action) == Some(x.action)
            &&& x.destination == IpNetwork::host_spec(record_ips(record->0)[k])
            &&& x.owner == domain
            &&& x.generation == record->0.generation
            &&& x.expires_at == record->0.expires_at
        },
        intents_for(domain, action, record).len() == if record is None || action is NoOverride {
            0
        } else {
            record_ips(record->0).len()
        },
{
}

/// An accepted answer gives the entry the routes its policy asks for: one
/// per address of the answer, each with the route action the entry's policy
/// action converts to (none when the policy does not override), and with
/// the answer's generation and expiry.
pub proof fn lemma_answer_routes_follow_policy(e: EntryView, record: RecordView)
    requires
        record.generation == e.generation,
    ensures
        answered(e, record).record == Some(record),
        forall|k: int| 0 <= k < answered(e, record).intents.len() ==> {
            let x = #[trigger] answered(e, record).intents[k];
            &&& spec_action_from_policy(e.action) == Some(x.action)
            &&& x.destination == IpNetwork::host_spec(record_ips(record)[k])
            &&& x.generation == record.generation
            &&& x.expires_at == record.expires_at
        },
        answered(e, record).intents.len() == if e.action is NoOverride { 0 } else { record_ips(record).len() },
{
    lemma_intents_follow_policy(e.domain, e.action, Some(record));
}

/// The domains listed for re-resolution at `now` are those of the entries
/// that have no record or whose record has expired by `now`, in entry
/// order: an entry with a record still fresh at `now` is never listed.
pub proof fn lemma_refresh_lists_stale_entries(entries: Seq<EntryView>, now: u64)
    ensures
        refresh_spec(entries, now) == entries.filter(stale_at(now)).map_values(|e: EntryView| e.domain),
        forall|i: int| 0 <= i < entries.len() && (#[trigger] entries[i]).record is Some && now < entries[i].record->0.expires_at
            ==> !entries.filter(stale_at(now)).contains(entries[i]),
    decreases entries.len(),
{
    let f = |e: EntryView| e.domain;
    if entries.len() == 0 {
        assert(entries.filter(stale_at(now)) =~= Seq::<EntryView>::empty()) by {
            reveal(Seq::filter);
        }
        assert(refresh_spec(entries, now) =~= entries.filter(stale_at(now)).map_values(f));
    } else {
        let p = entries.drop_last();
        let x = entries.last();
        lemma_refresh_lists_stale_entries(p, now);
        assert(entries =~= p.push(x));
        p.lemma_filter_push(x, stale_at(now));
        let fp = p.filter(stale_at(now));
        if entry_expired_at(x, now) {
            assert(fp.push(x).map_values(f) =~= fp.map_values(f).push(f(x)));
        }
        assert(refresh_spec(entries, now) =~= entries.filter(stale_at(now)).map_values(f));
    }
    assert forall|i: int| 0 <= i < entries.len() && (#[trigger] entries[i]).record is Some && now < entries[i].record->0.expires_at
        implies !entries.filter(stale_at(now)).contains(entries[i]) by {
        if entries.filter(stale_at(now)).contains(entries[i]) {
            let j = choose|j: int| 0 <= j < entries.filter(stale_at(now)).len() && entries.filter(stale_at(now))[j] == entries[i];
            entries.lemma_filter_pred(stale_at(now), j);
        }
    }
}

/// A domain whose policy does not override the default claims no route.
pub proof fn lemma_no_override_claims_no_routes(domain: Seq<char>, record: Option<RecordView>)
    ensures
        intents_for(domain, DomainPolicyAction::NoOverride, record) == Seq::<IntentView>::empty(),
{
}

} // verus!
