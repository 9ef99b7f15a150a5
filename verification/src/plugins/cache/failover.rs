//! Failover copies of pushed resources on local disk: the file each kind of resource is
//! written to and read from. Reading and writing the files is left to the caller.

use vstd::prelude::*;
use crate::model::{ErrorCode, PoleError};
use crate::plugins::cache::memory::EventType;
use crate::specification::DiscoverResponseType;
use vstd::string::StringExecFns;

verus! {

/// Settings of the local cache.
#[derive(Clone, Debug)]
pub struct LocalCacheConfig {
    pub name: String,
    pub service_expire_enable: bool,
    pub service_expire_time_ms: u64,
    pub service_refresh_interval_ms: u64,
    pub service_list_refresh_interval_ms: u64,
    pub persist_enable: bool,
    pub persist_dir: String,
}

/// Kinds of configuration responses of the control plane.
#[derive(Clone, Copy, Debug, PartialEq, Eq, Structural)]
pub enum ConfigResponseType {
    Unknown,
    ConfigFile,
    ConfigFileNames,
}

/// The resource kind a per-service naming response carries.
pub open spec fn spec_response_event_type(t: DiscoverResponseType) -> Option<EventType> {
    match t {
        DiscoverResponseType::Instance => Some(EventType::Instance),
        DiscoverResponseType::CustomRouteRule => Some(EventType::RouterRule),
        DiscoverResponseType::RateLimit => Some(EventType::RateLimitRule),
        DiscoverResponseType::CircuitBreaker => Some(EventType::CircuitBreakerRule),
        DiscoverResponseType::FaultDetector => Some(EventType::FaultDetectRule),
        DiscoverResponseType::Lane => Some(EventType::LaneRule),
        DiscoverResponseType::Lossless => Some(EventType::LosslessRule),
        DiscoverResponseType::TrafficSecurityRule => Some(EventType::TrafficSecurityRule),
        DiscoverResponseType::TrafficMirrorRule => Some(EventType::TrafficMirrorRule),
        DiscoverResponseType::TrafficMockRule => Some(EventType::TrafficMockRule),
        _ => None,
    }
}

pub fn response_event_type(t: DiscoverResponseType) -> (r: Option<EventType>)
    ensures
        r == spec_response_event_type(t),
{
    match t {
        DiscoverResponseType::Instance => Some(EventType::Instance),
        DiscoverResponseType::CustomRouteRule => Some(EventType::RouterRule),
        DiscoverResponseType::RateLimit => Some(EventType::RateLimitRule),
        DiscoverResponseType::CircuitBreaker => Some(EventType::CircuitBreakerRule),
        DiscoverResponseType::FaultDetector => Some(EventType::FaultDetectRule),
        DiscoverResponseType::Lane => Some(EventType::LaneRule),
        DiscoverResponseType::Lossless => Some(EventType::LosslessRule),
        DiscoverResponseType::TrafficSecurityRule => Some(EventType::TrafficSecurityRule),
        DiscoverResponseType::TrafficMirrorRule => Some(EventType::TrafficMirrorRule),
        DiscoverResponseType::TrafficMockRule => Some(EventType::TrafficMockRule),
        _ => None,
    }
}

/// The file name of a per-service resource kind's failover copy.
pub open spec fn spec_persist_file(t: EventType) -> Option<Seq<char>> {
    match t {
        EventType::Instance => Some("instance.data"@),
        EventType::RouterRule => Some("router_rule.data"@),
        EventType::RateLimitRule => Some("ratelimit_rule.data"@),
        EventType::CircuitBreakerRule => Some("circuitbreaker_rule.data"@),
        EventType::FaultDetectRule => Some("faultdetect_rule.data"@),
        EventType::LaneRule => Some("lane_rule.data"@),
        EventType::LosslessRule => Some("lossless_rule.data"@),
        EventType::TrafficSecurityRule => Some("traffic_security_rule.data"@),
        EventType::TrafficMirrorRule => Some("traffic_mirror_rule.data"@),
        EventType::TrafficMockRule => Some("traffic_mock_rule.data"@),
        _ => None,
    }
}

pub fn persist_file(t: EventType) -> (r: Option<&'static str>)
    ensures
        match r {
            Some(s) => spec_persist_file(t) == Some(s@),
            None => spec_persist_file(t).is_none(),
        },
{
    match t {
        EventType::Instance => Some("instance.data"),
        EventType::RouterRule => Some("router_rule.data"),
        EventType::RateLimitRule => Some("ratelimit_rule.data"),
        EventType::CircuitBreakerRule => Some("circuitbreaker_rule.data"),
        EventType::FaultDetectRule => Some("faultdetect_rule.data"),
        EventType::LaneRule => Some("lane_rule.data"),
        EventType::LosslessRule => Some("lossless_rule.data"),
        EventType::TrafficSecurityRule => Some("traffic_security_rule.data"),
        EventType::TrafficMirrorRule => Some("traffic_mirror_rule.data"),
        EventType::TrafficMockRule => Some("traffic_mock_rule.data"),
        _ => None,
    }
}

/// Failover copies in the configured directory.
pub struct DiskCacheFailover {
    pub conf: LocalCacheConfig,
}

pub open spec fn disabled_message() -> Seq<char> {
    "local cache persistence is disabled"@
}

/// A path result as values.
pub open spec fn path_result(r: Result<String, PoleError>) -> Result<Seq<char>, (ErrorCode, Seq<char>)> {
    match r {
        Ok(p) => Ok(p@),
        Err(e) => Err((e.code, e.message@)),
    }
}

/// A save-path result as values: no path when nothing is to be written.
pub open spec fn save_result(r: Result<Option<String>, PoleError>) -> Result<Option<Seq<char>>, (ErrorCode, Seq<char>)> {
    match r {
        Ok(Some(p)) => Ok(Some(p@)),
        Ok(None) => Ok(None),
        Err(e) => Err((e.code, e.message@)),
    }
}

/// Where the naming copy of a resource kind of a service is kept.
pub open spec fn spec_naming_path(dir: Seq<char>, t: EventType, namespace: Seq<char>, service: Seq<char>) -> Option<Seq<char>> {
    if t == EventType::Service {
        Some(dir + "/svc#"@ + namespace + "#services.data"@)
    } else {
        match spec_persist_file(t) {
            Some(f) => Some(dir + "/svc#"@ + namespace + "#"@ + service + "#"@ + f),
            None => None,
        }
    }
}

/// The file a load of a resource kind of a service reads: refused when persistence is off
/// or the kind has no copy.
pub open spec fn spec_naming_load(conf: LocalCacheConfig, t: EventType, namespace: Seq<char>, service: Seq<char>) -> Result<Seq<char>, (ErrorCode, Seq<char>)> {
    if !conf.persist_enable {
        Err((ErrorCode::InternalError, disabled_message()))
    } else {
        match spec_naming_path(conf.persist_dir@, t, namespace, service) {
            Some(p) => Ok(p),
            None => Err((ErrorCode::InternalError, "unsupported event type"@)),
        }
    }
}

/// The file a naming response of a service is written to: none when persistence is off;
/// refused for a response kind that has no copy.
pub open spec fn spec_naming_save(conf: LocalCacheConfig, t: DiscoverResponseType, namespace: Seq<char>, name: Seq<char>) -> Result<Option<Seq<char>>, (ErrorCode, Seq<char>)> {
    if !conf.persist_enable {
        Ok(None)
    } else if t == DiscoverResponseType::Services {
        Ok(spec_naming_path(conf.persist_dir@, EventType::Service, namespace, name))
    } else {
        match spec_response_event_type(t) {
            Some(k) => Ok(spec_naming_path(conf.persist_dir@, k, namespace, name)),
            None => Err((ErrorCode::InternalError, "unsupported discover response type"@)),
        }
    }
}

/// Where the configuration copy of a file is kept.
pub open spec fn spec_config_file_path(dir: Seq<char>, namespace: Seq<char>, group: Seq<char>, file: Seq<char>) -> Seq<char> {
    dir + "/config#"@ + namespace + "#"@ + group + "#"@ + file + "#config_file.data"@
}

/// Where the configuration copy of a group's file list is kept.
pub open spec fn spec_config_group_path(dir: Seq<char>, namespace: Seq<char>, group: Seq<char>) -> Seq<char> {
    dir + "/config#"@ + namespace + "#"@ + group + "#config_group.data"@
}

/// The file a load of a configuration file or group reads.
pub open spec fn spec_config_load(conf: LocalCacheConfig, t: EventType, namespace: Seq<char>, group: Seq<char>, file: Seq<char>) -> Result<Seq<char>, (ErrorCode, Seq<char>)> {
    if !conf.persist_enable {
        Err((ErrorCode::InternalError, disabled_message()))
    } else if t == EventType::ConfigFile {
        Ok(spec_config_file_path(conf.persist_dir@, namespace, group, file))
    } else if t == EventType::ConfigGroup {
        Ok(spec_config_group_path(conf.persist_dir@, namespace, group))
    } else {
        Err((ErrorCode::InternalError, "unsupported event type"@))
    }
}

/// The file a configuration response is written to: none when persistence is off.
pub open spec fn spec_config_save(conf: LocalCacheConfig, t: ConfigResponseType, namespace: Seq<char>, group: Seq<char>, file_name: Seq<char>) -> Result<Option<Seq<char>>, (ErrorCode, Seq<char>)> {
    if !conf.persist_enable {
        Ok(None)
    } else {
        match t {
            ConfigResponseType::ConfigFile => Ok(Some(spec_config_file_path(conf.persist_dir@, namespace, group, file_name))),
            ConfigResponseType::ConfigFileNames => Ok(Some(spec_config_group_path(conf.persist_dir@, namespace, group))),
            ConfigResponseType::Unknown => Err((ErrorCode::InternalError, "unsupported config response type"@)),
        }
    }
}

fn config_file_path(dir: &String, namespace: &str, group: &str, file: &str) -> (r: String)
    ensures
        r@ == spec_config_file_path(dir@, namespace@, group@, file@),
{
    let mut p = dir.clone();
    p.append("/config#");
    p.append(namespace);
    p.append("#");
    p.append(group);
    p.append("#");
    p.append(file);
    p.append("#config_file.data");
    p
}

fn config_group_path(dir: &String, namespace: &str, group: &str) -> (r: String)
    ensures
        r@ == spec_config_group_path(dir@, namespace@, group@),
{
    let mut p = dir.clone();
    p.append("/config#");
    p.append(namespace);
    p.append("#");
    p.append(group);
    p.append("#config_group.data");
    p
}

impl DiskCacheFailover {
    pub fn new(conf: LocalCacheConfig) -> (r: DiskCacheFailover)
        ensures
            r.conf == conf,
    {
        DiskCacheFailover { conf }
    }

    fn naming_path(&self, t: EventType, namespace: &str, service: &str) -> (r: Option<String>)
        ensures
            match r {
                Some(p) => spec_naming_path(self.conf.persist_dir@, t, namespace@, service@) == Some(p@),
                None => spec_naming_path(self.conf.persist_dir@, t, namespace@, service@).is_none(),
            },
    {
        let mut p = self.conf.persist_dir.clone();
        if t == EventType::Service {
            p.append("/svc#");
            p.append(namespace);
            p.append("#services.data");
            return Some(p);
        }
        match persist_file(t) {
            Some(f) => {
                p.append("/svc#");
                p.append(namespace);
                p.append("#");
                p.append(service);
                p.append("#");
                p.append(f);
                Some(p)
            },
            None => None,
        }
    }

    pub fn naming_load_path(&self, t: EventType, namespace: &str, service: &str) -> (r: Result<String, PoleError>)
        ensures
            path_result(r) == spec_naming_load(self.conf, t, namespace@, service@),
    {
        if !self.conf.persist_enable {
            return Err(PoleError::new(ErrorCode::InternalError, String::from_str("local cache persistence is disabled")));
        }
        match self.naming_path(t, namespace, service) {
            Some(p) => Ok(p),
            None => Err(PoleError::new(ErrorCode::InternalError, String::from_str("unsupported event type"))),
        }
    }

    pub fn naming_save_path(&self, t: DiscoverResponseType, namespace: &str, name: &str) -> (r: Result<Option<String>, PoleError>)
        ensures
            save_result(r) == spec_naming_save(self.conf, t, namespace@, name@),
    {
        if !self.conf.persist_enable {
            return Ok(None);
        }
        if t == DiscoverResponseType::Services {
            return Ok(self.naming_path(EventType::Service, namespace, name));
        }
        match response_event_type(t) {
            Some(k) => Ok(self.naming_path(k, namespace, name)),
            None => Err(PoleError::new(ErrorCode::InternalError, String::from_str("unsupported discover response type"))),
        }
    }

    pub fn config_load_path(&self, t: EventType, namespace: &str, group: &str, file: &str) -> (r: Result<String, PoleError>)
        ensures
            path_result(r) == spec_config_load(self.conf, t, namespace@, group@, file@),
    {
        if !self.conf.persist_enable {
            return Err(PoleError::new(ErrorCode::InternalError, String::from_str("local cache persistence is disabled")));
        }
        if t == EventType::ConfigFile {
            return Ok(config_file_path(&self.conf.persist_dir, namespace, group, file));
        }
        if t == EventType::ConfigGroup {
            return Ok(config_group_path(&self.conf.persist_dir, namespace, group));
        }
        Err(PoleError::new(ErrorCode::InternalError, String::from_str("unsupported event type")))
    }

    pub fn config_save_path(&self, t: ConfigResponseType, namespace: &str, group: &str, file_name: &str) -> (r: Result<Option<String>, PoleError>)
        ensures
            save_result(r) == spec_config_save(self.conf, t, namespace@, group@, file_name@),
    {
        if !self.conf.persist_enable {
            return Ok(None);
        }
        match t {
            ConfigResponseType::ConfigFile => Ok(Some(config_file_path(&self.conf.persist_dir, namespace, group, file_name))),
            ConfigResponseType::ConfigFileNames => Ok(Some(config_group_path(&self.conf.persist_dir, namespace, group))),
            ConfigResponseType::Unknown => Err(PoleError::new(ErrorCode::InternalError, String::from_str("unsupported config response type"))),
        }
    }
}

/// What is saved is what is loaded: a naming response of a service that is saved at all is
/// written to the very file a load of its resource kind for that service reads, and a
/// configuration response to the file a load of the matching file or group reads.
pub proof fn law_saved_copy_is_loaded(conf: LocalCacheConfig, t: DiscoverResponseType, namespace: Seq<char>, name: Seq<char>)
    requires
        conf.persist_enable,
        t == DiscoverResponseType::Services || spec_response_event_type(t).is_some(),
    ensures
        ({
            let k = if t == DiscoverResponseType::Services { EventType::Service } else { spec_response_event_type(t).unwrap() };
            spec_naming_load(conf, k, namespace, name) matches Ok(p) && spec_naming_save(conf, t, namespace, name) == Ok::<Option<Seq<char>>, (ErrorCode, Seq<char>)>(Some(p))
        }),
{
}

/// The configuration counterpart: a file saved is the file loaded, and a group's list too.
pub proof fn law_saved_config_copy_is_loaded(conf: LocalCacheConfig, namespace: Seq<char>, group: Seq<char>, file: Seq<char>)
    requires
        conf.persist_enable,
    ensures
        spec_config_load(conf, EventType::ConfigFile, namespace, group, file) matches Ok(p)
            && spec_config_save(conf, ConfigResponseType::ConfigFile, namespace, group, file) == Ok::<Option<Seq<char>>, (ErrorCode, Seq<char>)>(Some(p)),
        spec_config_load(conf, EventType::ConfigGroup, namespace, group, file) matches Ok(p)
            && spec_config_save(conf, ConfigResponseType::ConfigFileNames, namespace, group, file) == Ok::<Option<Seq<char>>, (ErrorCode, Seq<char>)>(Some(p)),
{
}

/// Copies of different per-service resource kinds of one service never share a file.
pub proof fn law_kinds_have_distinct_copies(dir: Seq<char>, a: EventType, b: EventType, namespace: Seq<char>, service: Seq<char>)
    requires
        a != b,
        spec_persist_file(a).is_some(),
        spec_persist_file(b).is_some(),
    ensures
        spec_naming_path(dir, a, namespace, service) != spec_naming_path(dir, b, namespace, service),
{
    let prefix = dir + "/svc#"@ + namespace + "#"@ + service + "#"@;
    let fa = spec_persist_file(a).unwrap();
    let fb = spec_persist_file(b).unwrap();
    assert((prefix + fa).skip(prefix.len() as int) =~= fa);
    assert((prefix + fb).skip(prefix.len() as int) =~= fb);
    assert(spec_naming_path(dir, a, namespace, service) == Some(prefix + fa));
    assert(spec_naming_path(dir, b, namespace, service) == Some(prefix + fb));
    reveal_strlit("instance.data");
    reveal_strlit("router_rule.data");
    reveal_strlit("ratelimit_rule.data");
    reveal_strlit("circuitbreaker_rule.data");
    reveal_strlit("faultdetect_rule.data");
    reveal_strlit("lane_rule.data");
    reveal_strlit("lossless_rule.data");
    reveal_strlit("traffic_security_rule.data");
    reveal_strlit("traffic_mirror_rule.data");
    reveal_strlit("traffic_mock_rule.data");
    assert(fa.len() != fb.len() || fa[0] != fb[0]);
}

} // verus!
