//! How a worker is set up.

use vstd::prelude::*;

use crate::protocol::request::DEFAULT_MODEL;
use crate::protocol::RequestDefaults;
use crate::text;

verus! {

/// Intervals and timeouts are in milliseconds.
#[derive(Debug, Clone)]
pub struct WorkerConfig {
    pub worker_id: String,
    /// Requests served at once. This is the engine's own capacity, passed
    /// through to the ring's heartbeat unchanged; claiming more work than the
    /// engine has slots for would only move the queue out of the ring, where a
    /// scheduler can see it, and into the engine, where it cannot.
    pub max_inflight: usize,
    pub poll_interval: u64,
    pub heartbeat_interval: u64,
    pub discovery_interval: u64,
    /// How long to wait for a request body to finish arriving.
    pub request_timeout: u64,
    pub ingress_urls: Vec<String>,
    pub discovery_dns: Option<String>,
    /// What completions name as their model where a request names none.
    pub model_name: String,
    pub defaults: RequestDefaults,
}

/// A worker with no ingress to pull work from.
#[derive(Debug, Clone, Copy, PartialEq, Eq, Structural)]
pub struct NothingToAttach {
}

impl NothingToAttach {
    /// What the operator is told.
    pub fn message(&self) -> (message: &'static str)
        ensures
            message@ == "nothing to attach to: pass --ingress-url or --discovery-dns"@,
    {
        "nothing to attach to: pass --ingress-url or --discovery-dns"
    }
}

/// `interval`, but never shorter than a millisecond.
pub open spec fn at_least_one(interval: u64) -> u64 {
    if interval == 0 {
        1
    } else {
        interval
    }
}

fn clamp(interval: u64) -> (clamped: u64)
    ensures
        clamped == at_least_one(interval),
{
    if interval == 0 {
        1
    } else {
        interval
    }
}

impl WorkerConfig {
    pub fn new(worker_id: &str) -> (config: Self)
        ensures
            config.worker_id@ == worker_id@,
            config.max_inflight == 1,
            config.poll_interval == 50,
            config.heartbeat_interval == 1000,
            config.discovery_interval == 5000,
            config.request_timeout == 30_000,
            config.ingress_urls@.len() == 0,
            config.discovery_dns is None,
            config.model_name@ == "llm"@,
            config.defaults.max_tokens == 128,
            config.defaults.temperature.bits == 0,
            config.defaults.top_p.bits == 0x3f66_6666,
            config.defaults.seed == 42,
            !config.defaults.think,
    {
        WorkerConfig {
            worker_id: worker_id.to_owned(),
            max_inflight: 1,
            poll_interval: 50,
            heartbeat_interval: 1000,
            discovery_interval: 5000,
            request_timeout: 30_000,
            ingress_urls: Vec::new(),
            discovery_dns: None,
            model_name: DEFAULT_MODEL.to_owned(),
            defaults: RequestDefaults::default(),
        }
    }

    /// The configuration with every interval at least a millisecond long.
    pub fn clamped(self) -> (config: Self)
        ensures
            config == (WorkerConfig {
                poll_interval: at_least_one(self.poll_interval),
                heartbeat_interval: at_least_one(self.heartbeat_interval),
                discovery_interval: at_least_one(self.discovery_interval),
                request_timeout: at_least_one(self.request_timeout),
                ..self
            }),
            config.poll_interval >= 1,
            self.poll_interval >= 1 ==> config.poll_interval == self.poll_interval,
            self.poll_interval == 0 ==> config.poll_interval == 1,
            config.heartbeat_interval >= 1,
            self.heartbeat_interval >= 1 ==> config.heartbeat_interval == self.heartbeat_interval,
            self.heartbeat_interval == 0 ==> config.heartbeat_interval == 1,
            config.discovery_interval >= 1,
            self.discovery_interval >= 1 ==> config.discovery_interval == self.discovery_interval,
            self.discovery_interval == 0 ==> config.discovery_interval == 1,
            config.request_timeout >= 1,
            self.request_timeout >= 1 ==> config.request_timeout == self.request_timeout,
            self.request_timeout == 0 ==> config.request_timeout == 1,
    {
        let mut config = self;
        config.poll_interval = clamp(config.poll_interval);
        config.heartbeat_interval = clamp(config.heartbeat_interval);
        config.discovery_interval = clamp(config.discovery_interval);
        config.request_timeout = clamp(config.request_timeout);
        config
    }

    /// A worker needs somewhere to attach: an ingress, or a name to find one.
    pub fn require_ingress(&self) -> (checked: Result<(), NothingToAttach>)
        ensures
            checked is Err <==> self.ingress_urls@.len() == 0 && self.discovery_dns is None,
    {
        if self.ingress_urls.len() == 0 && self.discovery_dns.is_none() {
            Err(NothingToAttach {  })
        } else {
            Ok(())
        }
    }
}

/// The name a worker goes by: the one it was given, or one made from its
/// process.
pub fn worker_id(given: Option<String>, process: u32) -> (id: String)
    ensures
        id@ == match given {
            Some(name) => name@,
            None => "llm-"@ + text::decimal(process as nat),
        },
{
    match given {
        Some(name) => name,
        None => {
            let mut id = "llm-".to_owned();
            text::push_decimal(&mut id, process as u64);
            id
        },
    }
}

/// An interval that is long enough stays as it is, and one of nothing becomes the
/// shortest there is.
pub proof fn intervals_last_a_millisecond(interval: u64)
    ensures
        at_least_one(interval) >= 1,
        interval >= 1 ==> at_least_one(interval) == interval,
        interval == 0 ==> at_least_one(interval) == 1,
{
}

} // verus!
