//! The resource cache: entries created on first load (a watch is then started), filled by
//! the control plane's pushes, and read once initialized.

use vstd::prelude::*;
use crate::keyed::{
    find_key, key_lookup, key_store, keyed_view, lemma_key_index, lemma_key_store_other,
    lemma_key_store_same, lemma_map_entries, map_entries, store_key,
};
use crate::model::{CachedRule, ErrorCode, Instance, InstanceView, PoleError, ServiceInfo, instance_views};
use vstd::string::StringExecFns;

verus! {

/// Kinds of resources the control plane pushes.
#[derive(Clone, Copy, Debug, PartialEq, Eq, Structural)]
pub enum EventType {
    Unknown,
    Service,
    Instance,
    RouterRule,
    RateLimitRule,
    CircuitBreakerRule,
    FaultDetectRule,
    LaneRule,
    LosslessRule,
    TrafficSecurityRule,
    TrafficMirrorRule,
    TrafficMockRule,
    ConfigFile,
    ConfigGroup,
}

/// The name of a resource kind.
pub open spec fn spec_event_type_name(t: EventType) -> Seq<char> {
    match t {
        EventType::Unknown => "Unknown"@,
        EventType::Service => "Service"@,
        EventType::Instance => "Instance"@,
        EventType::RouterRule => "RouterRule"@,
        EventType::RateLimitRule => "RateLimitRule"@,
        EventType::CircuitBreakerRule => "CircuitBreakerRule"@,
        EventType::FaultDetectRule => "FaultDetectRule"@,
        EventType::LaneRule => "LaneRule"@,
        EventType::LosslessRule => "LosslessRule"@,
        EventType::TrafficSecurityRule => "TrafficSecurityRule"@,
        EventType::TrafficMirrorRule => "TrafficMirrorRule"@,
        EventType::TrafficMockRule => "TrafficMockRule"@,
        EventType::ConfigFile => "ConfigFile"@,
        EventType::ConfigGroup => "ConfigGroup"@,
    }
}

pub fn event_type_name(t: EventType) -> (r: &'static str)
    ensures
        r@ == spec_event_type_name(t),
{
    match t {
        EventType::Unknown => "Unknown",
        EventType::Service => "Service",
        EventType::Instance => "Instance",
        EventType::RouterRule => "RouterRule",
        EventType::RateLimitRule => "RateLimitRule",
        EventType::CircuitBreakerRule => "CircuitBreakerRule",
        EventType::FaultDetectRule => "FaultDetectRule",
        EventType::LaneRule => "LaneRule",
        EventType::LosslessRule => "LosslessRule",
        EventType::TrafficSecurityRule => "TrafficSecurityRule",
        EventType::TrafficMirrorRule => "TrafficMirrorRule",
        EventType::TrafficMockRule => "TrafficMockRule",
        EventType::ConfigFile => "ConfigFile",
        EventType::ConfigGroup => "ConfigGroup",
    }
}

/// Whether a kind is a governance rule kept per service.
pub open spec fn spec_is_service_rule(t: EventType) -> bool {
    match t {
        EventType::RouterRule | EventType::RateLimitRule | EventType::CircuitBreakerRule
        | EventType::FaultDetectRule | EventType::LaneRule | EventType::LosslessRule
        | EventType::TrafficSecurityRule | EventType::TrafficMirrorRule | EventType::TrafficMockRule => true,
        _ => false,
    }
}

pub fn is_service_rule(t: EventType) -> (r: bool)
    ensures
        r == spec_is_service_rule(t),
{
    match t {
        EventType::RouterRule | EventType::RateLimitRule | EventType::CircuitBreakerRule
        | EventType::FaultDetectRule | EventType::LaneRule | EventType::LosslessRule
        | EventType::TrafficSecurityRule | EventType::TrafficMirrorRule | EventType::TrafficMockRule => true,
        _ => false,
    }
}

/// The key a service's resource of a kind is cached and watched under: `Kind#namespace#service`.
pub open spec fn spec_rule_cache_key(t: EventType, namespace: Seq<char>, service: Seq<char>) -> Seq<char> {
    spec_event_type_name(t) + "#"@ + namespace + "#"@ + service
}

pub fn rule_cache_key(t: EventType, namespace: &str, service: &str) -> (r: String)
    ensures
        r@ == spec_rule_cache_key(t, namespace@, service@),
{
    let mut k = event_type_name(t).to_string();
    k.append("#");
    k.append(namespace);
    k.append("#");
    k.append(service);
    k
}

/// A cached resource: its value and revision, and whether the control plane has filled it.
pub struct CacheEntry<V> {
    pub value: V,
    pub revision: String,
    pub initialized: bool,
}

/// A cached resource as values.
pub struct EntryView<V> {
    pub value: V,
    pub revision: Seq<char>,
    pub initialized: bool,
}

pub open spec fn entry_view<V>() -> spec_fn(CacheEntry<V>) -> EntryView<V> {
    |e: CacheEntry<V>| EntryView { value: e.value, revision: e.revision@, initialized: e.initialized }
}

/// Cached resources by key.
pub struct ResourceCache<V> {
    entries: Vec<(String, CacheEntry<V>)>,
}

impl<V> View for ResourceCache<V> {
    type V = Seq<(Seq<char>, EntryView<V>)>;

    closed spec fn view(&self) -> Seq<(Seq<char>, EntryView<V>)> {
        map_entries(keyed_view(self.entries@), entry_view::<V>())
    }
}

/// The error of a load that found no initialized resource.
pub open spec fn load_timeout_message() -> Seq<char> {
    "load remote resource timeout"@
}

impl<V> ResourceCache<V> {
    pub fn new() -> (r: ResourceCache<V>)
        ensures
            r@.len() == 0,
    {
        let r = ResourceCache { entries: Vec::new() };
        assert(r@ =~= Seq::<(Seq<char>, EntryView<V>)>::empty());
        r
    }

    /// Makes sure a resource has an entry: a new one holds `empty`, no revision, and is not
    /// initialized. Tells whether it was created, that is, whether a watch is to be started.
    pub fn ensure_entry(&mut self, key: String, empty: V) -> (created: bool)
        ensures
            created == key_lookup(old(self)@, key@).is_none(),
            created ==> final(self)@ == key_store(old(self)@, key@, EntryView { value: empty, revision: Seq::empty(), initialized: false }),
            !created ==> final(self)@ == old(self)@,
    {
        let ghost kv = keyed_view(self.entries@);
        proof {
            lemma_key_index(kv, key@);
            lemma_map_entries(kv, entry_view::<V>(), key@, arbitrary());
        }
        match find_key(&self.entries, key.as_str()) {
            Some(_) => false,
            None => {
                let e = CacheEntry { value: empty, revision: String::new(), initialized: false };
                let ghost ev = e;
                store_key(&mut self.entries, key, e);
                proof {
                    lemma_map_entries(kv, entry_view::<V>(), key@, ev);
                    assert(entry_view::<V>()(ev) == EntryView { value: ev.value, revision: Seq::<char>::empty(), initialized: false });
                }
                true
            },
        }
    }

    /// Takes in what the control plane pushed for a resource: the value and revision
    /// replace the cached ones and the entry is initialized. A push for a resource that
    /// has no entry is dropped; tells whether it was taken in.
    pub fn apply_update(&mut self, key: &str, revision: String, value: V) -> (applied: bool)
        ensures
            applied == key_lookup(old(self)@, key@).is_some(),
            applied ==> final(self)@ == key_store(old(self)@, key@, EntryView { value, revision: revision@, initialized: true }),
            !applied ==> final(self)@ == old(self)@,
    {
        let ghost kv = keyed_view(self.entries@);
        proof {
            lemma_key_index(kv, key@);
        }
        match find_key(&self.entries, key) {
            None => {
                proof {
                    lemma_map_entries(kv, entry_view::<V>(), key@, arbitrary());
                }
                false
            },
            Some(j) => {
                let k = self.entries[j].0.clone();
                assert(k@ == key@);
                let e = CacheEntry { value, revision, initialized: true };
                let ghost ev = e;
                store_key(&mut self.entries, k, e);
                proof {
                    lemma_map_entries(kv, entry_view::<V>(), key@, ev);
                }
                true
            },
        }
    }

    /// Whether a resource's entry has been filled.
    pub fn is_initialized(&self, key: &str) -> (r: bool)
        ensures
            r == (key_lookup(self@, key@) matches Some(e) && e.initialized),
    {
        proof {
            lemma_key_index(keyed_view(self.entries@), key@);
            lemma_map_entries(keyed_view(self.entries@), entry_view::<V>(), key@, arbitrary());
        }
        match find_key(&self.entries, key) {
            None => false,
            Some(j) => self.entries[j].1.initialized,
        }
    }

    /// The cached resource, once initialized; else the load timed out.
    pub fn load(&self, key: &str) -> (r: Result<&CacheEntry<V>, PoleError>)
        ensures
            match key_lookup(self@, key@) {
                Some(e) => if e.initialized {
                    r matches Ok(x) && x.value == e.value && x.revision@ == e.revision && x.initialized
                } else {
                    r matches Err(err) && err.code == ErrorCode::InternalError && err.message@ == load_timeout_message()
                },
                None => r matches Err(err) && err.code == ErrorCode::InternalError && err.message@ == load_timeout_message(),
            },
    {
        proof {
            lemma_key_index(keyed_view(self.entries@), key@);
            lemma_map_entries(keyed_view(self.entries@), entry_view::<V>(), key@, arbitrary());
        }
        match find_key(&self.entries, key) {
            Some(j) => {
                if self.entries[j].1.initialized {
                    Ok(&self.entries[j].1)
                } else {
                    Err(PoleError::new(ErrorCode::InternalError, String::from_str("load remote resource timeout")))
                }
            },
            None => Err(PoleError::new(ErrorCode::InternalError, String::from_str("load remote resource timeout"))),
        }
    }
}

/// A load after a push: a resource whose entry exists reads back exactly what was pushed,
/// initialized.
pub proof fn law_load_returns_last_update<V>(cache: Seq<(Seq<char>, EntryView<V>)>, key: Seq<char>, revision: Seq<char>, value: V)
    requires
        key_lookup(cache, key).is_some(),
    ensures
        key_lookup(key_store(cache, key, EntryView { value, revision, initialized: true }), key)
            == Some(EntryView { value, revision, initialized: true }),
{
    lemma_key_store_same(cache, key, EntryView { value, revision, initialized: true });
}

/// A push for one resource leaves every other resource as it was.
pub proof fn law_update_keeps_other_resources<V>(cache: Seq<(Seq<char>, EntryView<V>)>, key: Seq<char>, other: Seq<char>, revision: Seq<char>, value: V)
    requires
        key != other,
    ensures
        key_lookup(key_store(cache, key, EntryView { value, revision, initialized: true }), other) == key_lookup(cache, other),
{
    lemma_key_store_other(cache, key, EntryView { value, revision, initialized: true }, other);
}

/// A second load of a resource starts no second watch.
pub proof fn law_entry_created_once<V>(cache: Seq<(Seq<char>, EntryView<V>)>, key: Seq<char>, empty: V)
    ensures
        key_lookup(key_store(cache, key, EntryView { value: empty, revision: Seq::empty(), initialized: false }), key).is_some(),
{
    lemma_key_store_same(cache, key, EntryView { value: empty, revision: Seq::empty(), initialized: false });
}

/// The available instances among `s`, in order.
pub open spec fn available_views(s: Seq<InstanceView>) -> Seq<InstanceView>
    decreases s.len(),
{
    if s.len() == 0 {
        s
    } else if s.last().available() {
        available_views(s.drop_last()).push(s.last())
    } else {
        available_views(s.drop_last())
    }
}

pub fn available_instances(instances: &Vec<Instance>) -> (r: Vec<Instance>)
    ensures
        instance_views(r@) == available_views(instance_views(instances@)),
{
    let ghost all = instance_views(instances@);
    let mut r: Vec<Instance> = Vec::new();
    let mut i: usize = 0;
    assert(instance_views(r@) =~= available_views(all.subrange(0, 0)));
    while i < instances.len()
        invariant
            i <= instances@.len(),
            all == instance_views(instances@),
            instance_views(r@) == available_views(all.subrange(0, i as int)),
        decreases instances@.len() - i,
    {
        let ghost pre = all.subrange(0, i + 1);
        assert(pre.drop_last() =~= all.subrange(0, i as int));
        assert(pre.last() == instances@[i as int]@);
        if instances[i].is_available() {
            let ghost before = r@;
            r.push(instances[i].duplicate());
            assert(instance_views(r@) =~= instance_views(before).push(instances@[i as int]@));
        }
        i = i + 1;
    }
    assert(all.subrange(0, all.len() as int) =~= all);
    r
}

/// The instances of a service as cached: all of them, and the available ones.
pub struct CachedInstances {
    pub instances: Vec<Instance>,
    pub available: Vec<Instance>,
}

/// The memory cache: governance rules and instances of services, each under its key, the
/// service lists of namespaces, each under its namespace, and the listeners of pushes,
/// each with the kind it watches, in the order they registered.
pub struct MemoryCache {
    pub rules: ResourceCache<Vec<CachedRule>>,
    pub instances: ResourceCache<CachedInstances>,
    pub services: ResourceCache<Vec<ServiceInfo>>,
    pub listeners: Vec<(EventType, u64)>,
}

/// The listeners of a kind, in the order they registered.
pub open spec fn watchers(ls: Seq<(EventType, u64)>, kind: EventType) -> Seq<u64>
    decreases ls.len(),
{
    if ls.len() == 0 {
        Seq::empty()
    } else if ls.last().0 == kind {
        watchers(ls.drop_last(), kind).push(ls.last().1)
    } else {
        watchers(ls.drop_last(), kind)
    }
}

/// What a push owes once handled: whether to save it to the failover copy (when one is
/// configured), and the listeners to notify of the update, in order.
pub struct PushEffects {
    pub save: bool,
    pub notify: Vec<u64>,
}

impl MemoryCache {
    pub fn new() -> (r: MemoryCache)
        ensures
            r.rules@.len() == 0,
            r.instances@.len() == 0,
            r.services@.len() == 0,
            r.listeners@.len() == 0,
    {
        MemoryCache { rules: ResourceCache::new(), instances: ResourceCache::new(), services: ResourceCache::new(), listeners: Vec::new() }
    }

    /// Registers a listener of the pushes of a kind.
    pub fn register_resource_listener(&mut self, kind: EventType, listener: u64)
        ensures
            final(self).services@ == old(self).services@,
            final(self).listeners@ == old(self).listeners@.push((kind, listener)),
            final(self).rules@ == old(self).rules@,
            final(self).instances@ == old(self).instances@,
    {
        self.listeners.push((kind, listener));
    }

    /// The listeners of a kind, in the order they registered.
    pub fn listeners_for(&self, kind: EventType) -> (r: Vec<u64>)
        ensures
            r@ == watchers(self.listeners@, kind),
    {
        let mut r: Vec<u64> = Vec::new();
        let mut i: usize = 0;
        while i < self.listeners.len()
            invariant
                i <= self.listeners@.len(),
                r@ == watchers(self.listeners@.subrange(0, i as int), kind),
            decreases self.listeners@.len() - i,
        {
            let ghost pre = self.listeners@.subrange(0, i + 1);
            assert(pre.drop_last() =~= self.listeners@.subrange(0, i as int));
            if self.listeners[i].0 == kind {
                r.push(self.listeners[i].1);
            }
            i = i + 1;
        }
        assert(self.listeners@.subrange(0, self.listeners@.len() as int) =~= self.listeners@);
        r
    }

    /// Handles a push of a service's rules of a kind: taken in as `on_rules_event` does; a
    /// push taken in is owed a save to the failover copy and an update to every listener of
    /// the kind, in order; a push for a service nobody loaded owes nothing.
    pub fn on_rules_push(&mut self, kind: EventType, namespace: &str, service: &str, revision: String, rules: Vec<CachedRule>) -> (r: PushEffects)
        ensures
            final(self).services@ == old(self).services@,
            ({
                let key = spec_rule_cache_key(kind, namespace@, service@);
                let taken = key_lookup(old(self).rules@, key).is_some();
                &&& r.save == taken
                &&& r.notify@ == if taken { watchers(old(self).listeners@, kind) } else { Seq::empty() }
                &&& taken ==> final(self).rules@ == key_store(old(self).rules@, key, EntryView { value: rules, revision: revision@, initialized: true })
                &&& !taken ==> final(self).rules@ == old(self).rules@
            }),
            final(self).instances@ == old(self).instances@,
            final(self).listeners@ == old(self).listeners@,
    {
        let listeners = self.listeners_for(kind);
        let applied = self.on_rules_event(kind, namespace, service, revision, rules);
        PushEffects { save: applied, notify: if applied { listeners } else { Vec::new() } }
    }

    /// Handles a push of a service's instances: taken in as `on_instances_event` does, and
    /// owing, when taken in, a save to the failover copy and an update to every listener of
    /// instances, in order.
    pub fn on_instances_push(&mut self, namespace: &str, service: &str, revision: String, instances: Vec<Instance>) -> (r: PushEffects)
        ensures
            final(self).services@ == old(self).services@,
            ({
                let key = spec_rule_cache_key(EventType::Instance, namespace@, service@);
                let taken = key_lookup(old(self).instances@, key).is_some();
                &&& r.save == taken
                &&& r.notify@ == if taken { watchers(old(self).listeners@, EventType::Instance) } else { Seq::empty() }
                &&& taken ==> (key_lookup(final(self).instances@, key) matches Some(e) && e.initialized
                    && e.revision == revision@
                    && instance_views(e.value.instances@) == instance_views(instances@)
                    && instance_views(e.value.available@) == available_views(instance_views(instances@)))
                &&& !taken ==> final(self).instances@ == old(self).instances@
            }),
            final(self).rules@ == old(self).rules@,
            final(self).listeners@ == old(self).listeners@,
    {
        let listeners = self.listeners_for(EventType::Instance);
        let applied = self.on_instances_event(namespace, service, revision, instances);
        PushEffects { save: applied, notify: if applied { listeners } else { Vec::new() } }
    }

    /// The first step of loading a service's rules of a kind: its entry is made sure of.
    /// Tells whether it was created (a watch is then to be started); a kind that is not a
    /// service rule cannot be loaded.
    pub fn begin_load_service_rule(&mut self, kind: EventType, namespace: &str, service: &str) -> (r: Result<bool, PoleError>)
        ensures
            final(self).services@ == old(self).services@,
            spec_is_service_rule(kind) ==> ({
                let key = spec_rule_cache_key(kind, namespace@, service@);
                &&& r == Ok::<bool, PoleError>(key_lookup(old(self).rules@, key).is_none())
                &&& key_lookup(old(self).rules@, key).is_none() ==> (key_lookup(final(self).rules@, key) matches Some(e)
                    && e.value@.len() == 0 && e.revision.len() == 0 && !e.initialized)
                &&& forall|other: Seq<char>| other != key ==> #[trigger] key_lookup(final(self).rules@, other) == key_lookup(old(self).rules@, other)
                &&& key_lookup(old(self).rules@, key).is_some() ==> final(self).rules@ == old(self).rules@
            }),
            !spec_is_service_rule(kind) ==> (r matches Err(e) && e.code == ErrorCode::InternalError
                && e.message@ == load_timeout_message() && final(self).rules@ == old(self).rules@),
            final(self).instances@ == old(self).instances@,
    {
        if !is_service_rule(kind) {
            return Err(PoleError::new(ErrorCode::InternalError, String::from_str("load remote resource timeout")));
        }
        let key = rule_cache_key(kind, namespace, service);
        let ghost kv = key@;
        let empty: Vec<CachedRule> = Vec::new();
        let ghost ev = empty;
        let created = self.rules.ensure_entry(key, empty);
        proof {
            let entry = EntryView { value: ev, revision: Seq::<char>::empty(), initialized: false };
            if created {
                lemma_key_store_same(old(self).rules@, kv, entry);
                assert forall|other: Seq<char>| other != kv implies #[trigger] key_lookup(self.rules@, other) == key_lookup(old(self).rules@, other) by {
                    lemma_key_store_other(old(self).rules@, kv, entry, other);
                }
            }
        }
        Ok(created)
    }

    /// Whether loading is to try the failover copy: the entry is still not filled and the
    /// load accepts cached data.
    pub fn needs_failover(&self, kind: EventType, namespace: &str, service: &str, include_cache: bool) -> (r: bool)
        ensures
            r == (include_cache && !(key_lookup(self.rules@, spec_rule_cache_key(kind, namespace@, service@)) matches Some(e) && e.initialized)),
    {
        include_cache && !self.rules.is_initialized(rule_cache_key(kind, namespace, service).as_str())
    }

    /// The rules of a kind that the cache holds for a service, once filled.
    pub fn load_service_rule(&self, kind: EventType, namespace: &str, service: &str) -> (r: Result<&CacheEntry<Vec<CachedRule>>, PoleError>)
        ensures
            match key_lookup(self.rules@, spec_rule_cache_key(kind, namespace@, service@)) {
                Some(e) => if e.initialized {
                    r matches Ok(x) && x.value == e.value && x.revision@ == e.revision && x.initialized
                } else {
                    r matches Err(err) && err.code == ErrorCode::InternalError && err.message@ == load_timeout_message()
                },
                None => r matches Err(err) && err.code == ErrorCode::InternalError && err.message@ == load_timeout_message(),
            },
    {
        self.rules.load(rule_cache_key(kind, namespace, service).as_str())
    }

    /// Takes in the rules of a kind the control plane pushed for a service. Tells whether
    /// they were taken in (a push for a service nobody loaded is dropped).
    pub fn on_rules_event(&mut self, kind: EventType, namespace: &str, service: &str, revision: String, rules: Vec<CachedRule>) -> (applied: bool)
        ensures
            final(self).services@ == old(self).services@,
            ({
                let key = spec_rule_cache_key(kind, namespace@, service@);
                &&& applied == key_lookup(old(self).rules@, key).is_some()
                &&& applied ==> final(self).rules@ == key_store(old(self).rules@, key, EntryView { value: rules, revision: revision@, initialized: true })
                &&& !applied ==> final(self).rules@ == old(self).rules@
            }),
            final(self).instances@ == old(self).instances@,
            final(self).listeners@ == old(self).listeners@,
    {
        self.rules.apply_update(rule_cache_key(kind, namespace, service).as_str(), revision, rules)
    }

    /// Recovers a service's rules of a kind from the failover copy, given what reading the
    /// copy gave (`None` when it could not be read or names no service): handled as a push
    /// (`on_rules_push`) when the entry is still not filled and the load accepts cached
    /// data; otherwise nothing changes and nothing is owed.
    pub fn recover_service_rule(
        &mut self,
        kind: EventType,
        namespace: &str,
        service: &str,
        include_cache: bool,
        loaded: Option<(String, Vec<CachedRule>)>,
    ) -> (r: PushEffects)
        ensures
            final(self).services@ == old(self).services@,
            ({
                let key = spec_rule_cache_key(kind, namespace@, service@);
                let wanted = include_cache && !(key_lookup(old(self).rules@, key) matches Some(e) && e.initialized);
                let taken = wanted && loaded is Some && key_lookup(old(self).rules@, key).is_some();
                &&& r.save == taken
                &&& r.notify@ == if taken { watchers(old(self).listeners@, kind) } else { Seq::empty() }
                &&& taken ==> (loaded matches Some((revision, rules)) && final(self).rules@
                    == key_store(old(self).rules@, key, EntryView { value: rules, revision: revision@, initialized: true }))
                &&& !taken ==> final(self).rules@ == old(self).rules@
            }),
            final(self).instances@ == old(self).instances@,
            final(self).listeners@ == old(self).listeners@,
    {
        if !self.needs_failover(kind, namespace, service, include_cache) {
            return PushEffects { save: false, notify: Vec::new() };
        }
        match loaded {
            None => PushEffects { save: false, notify: Vec::new() },
            Some((revision, rules)) => self.on_rules_push(kind, namespace, service, revision, rules),
        }
    }

    /// The first step of loading a service's instances.
    pub fn begin_load_instances(&mut self, namespace: &str, service: &str) -> (created: bool)
        ensures
            final(self).services@ == old(self).services@,
            ({
                let key = spec_rule_cache_key(EventType::Instance, namespace@, service@);
                &&& created == key_lookup(old(self).instances@, key).is_none()
                &&& created ==> (key_lookup(final(self).instances@, key) matches Some(e) && !e.initialized)
                &&& !created ==> final(self).instances@ == old(self).instances@
            }),
            final(self).rules@ == old(self).rules@,
    {
        let key = rule_cache_key(EventType::Instance, namespace, service);
        let ghost kv = key@;
        let created = self.instances.ensure_entry(key, CachedInstances { instances: Vec::new(), available: Vec::new() });
        proof {
            if created {
                lemma_key_index(old(self).instances@, kv);
                lemma_key_store_same(old(self).instances@, kv, key_lookup(self.instances@, kv).unwrap());
            }
        }
        created
    }

    /// Takes in the instances the control plane pushed for a service: all of them, and the
    /// available ones.
    pub fn on_instances_event(&mut self, namespace: &str, service: &str, revision: String, instances: Vec<Instance>) -> (applied: bool)
        ensures
            final(self).services@ == old(self).services@,
            ({
                let key = spec_rule_cache_key(EventType::Instance, namespace@, service@);
                &&& applied == key_lookup(old(self).instances@, key).is_some()
                &&& applied ==> (key_lookup(final(self).instances@, key) matches Some(e) && e.initialized
                    && e.revision == revision@
                    && instance_views(e.value.instances@) == instance_views(instances@)
                    && instance_views(e.value.available@) == available_views(instance_views(instances@)))
                &&& !applied ==> final(self).instances@ == old(self).instances@
            }),
            final(self).rules@ == old(self).rules@,
            final(self).listeners@ == old(self).listeners@,
    {
        let available = available_instances(&instances);
        let key = rule_cache_key(EventType::Instance, namespace, service);
        let value = CachedInstances { instances, available };
        let ghost v = value;
        let ghost rv = revision@;
        let applied = self.instances.apply_update(key.as_str(), revision, value);
        proof {
            if applied {
                lemma_key_store_same(old(self).instances@, key@, EntryView { value: v, revision: rv, initialized: true });
            }
        }
        applied
    }

    /// The instances of a service as cached, once filled.
    pub fn load_service_instances(&self, namespace: &str, service: &str) -> (r: Result<&CacheEntry<CachedInstances>, PoleError>)
        ensures
            match key_lookup(self.instances@, spec_rule_cache_key(EventType::Instance, namespace@, service@)) {
                Some(e) => if e.initialized {
                    r matches Ok(x) && x.value == e.value && x.revision@ == e.revision && x.initialized
                } else {
                    r matches Err(err) && err.code == ErrorCode::InternalError && err.message@ == load_timeout_message()
                },
                None => r matches Err(err) && err.code == ErrorCode::InternalError && err.message@ == load_timeout_message(),
            },
    {
        self.instances.load(rule_cache_key(EventType::Instance, namespace, service).as_str())
    }

    /// The first step of loading the services of a namespace: its entry is made sure of;
    /// tells whether it was created (a watch is then to be started).
    pub fn begin_load_services(&mut self, namespace: &str) -> (created: bool)
        ensures
            created == key_lookup(old(self).services@, namespace@).is_none(),
            created ==> (key_lookup(final(self).services@, namespace@) matches Some(e) && !e.initialized
                && e.value@.len() == 0 && e.revision.len() == 0),
            !created ==> final(self).services@ == old(self).services@,
            final(self).rules@ == old(self).rules@,
            final(self).instances@ == old(self).instances@,
            final(self).listeners@ == old(self).listeners@,
    {
        let ghost kv = namespace@;
        let created = self.services.ensure_entry(namespace.to_string(), Vec::new());
        proof {
            if created {
                lemma_key_index(old(self).services@, kv);
                lemma_key_store_same(old(self).services@, kv, key_lookup(self.services@, kv).unwrap());
            }
        }
        created
    }

    /// The services of a namespace as cached, once filled; the push of a service list
    /// carries nothing the cache takes in, so an entry stays unfilled and its load times
    /// out.
    pub fn load_services(&self, namespace: &str) -> (r: Result<&CacheEntry<Vec<ServiceInfo>>, PoleError>)
        ensures
            match key_lookup(self.services@, namespace@) {
                Some(e) => if e.initialized {
                    r matches Ok(x) && x.value == e.value && x.revision@ == e.revision && x.initialized
                } else {
                    r matches Err(err) && err.code == ErrorCode::InternalError && err.message@ == load_timeout_message()
                },
                None => r matches Err(err) && err.code == ErrorCode::InternalError && err.message@ == load_timeout_message(),
            },
    {
        self.services.load(namespace)
    }
}

} // verus!
