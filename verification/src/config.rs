//! Plugin configuration and the collector's application-level config response.

use vstd::prelude::*;
use vstd::string::*;

verus! {

/// Environment configuration supplied by the host at startup. A missing
/// application id is a hard configuration rejection; every other field has a
/// default.
#[derive(Clone)]
pub struct EnvConfig {
    pub moesif_application_id: String,
    pub user_id_header: Option<String>,
    pub company_id_header: Option<String>,
    pub batch_max_size: usize,
    pub batch_max_wait: usize,
    pub upstream: String,
    pub base_uri: String,
    pub debug: bool,
    pub connection_timeout: usize,
}

pub fn default_batch_max_size() -> (r: usize)
    ensures
        r == 100,
{
    100
}

pub fn default_batch_max_wait() -> (r: usize)
    ensures
        r == 2000,
{
    2000
}

pub fn default_upstream() -> (r: String)
    ensures
        r@ == "moesif_api"@,
{
    "moesif_api".to_owned()
}

pub fn default_base_uri() -> (r: String)
    ensures
        r@ == "api.moesif.net"@,
{
    "api.moesif.net".to_owned()
}

pub fn default_debug() -> (r: bool)
    ensures
        r == false,
{
    false
}

pub fn connection_timeout() -> (r: usize)
    ensures
        r == 5000,
{
    5000
}

impl EnvConfig {
    /// Assemble a configuration from the optional fields of the host-supplied
    /// document, applying the documented defaults. The application id is the
    /// one required field: without it no configuration is produced.
    pub fn from_options(
        moesif_application_id: Option<String>,
        user_id_header: Option<String>,
        company_id_header: Option<String>,
        batch_max_size: Option<usize>,
        batch_max_wait: Option<usize>,
        upstream: Option<String>,
        base_uri: Option<String>,
        debug: Option<bool>,
        connection_timeout_ms: Option<usize>,
    ) -> (r: Option<EnvConfig>)
        ensures
            r is Some <==> moesif_application_id is Some,
            r matches Some(env) ==> {
                &&& Some(env.moesif_application_id) == moesif_application_id
                &&& env.user_id_header == user_id_header
                &&& env.company_id_header == company_id_header
                &&& env.batch_max_size == (if batch_max_size is Some {
                    batch_max_size->0
                } else {
                    100usize
                })
                &&& env.batch_max_wait == (if batch_max_wait is Some {
                    batch_max_wait->0
                } else {
                    2000usize
                })
                &&& env.upstream@ == (if upstream is Some {
                    upstream->0@
                } else {
                    "moesif_api"@
                })
                &&& env.base_uri@ == (if base_uri is Some {
                    base_uri->0@
                } else {
                    "api.moesif.net"@
                })
                &&& env.debug == (if debug is Some {
                    debug->0
                } else {
                    false
                })
                &&& env.connection_timeout == (if connection_timeout_ms is Some {
                    connection_timeout_ms->0
                } else {
                    5000usize
                })
            },
    {
        let app_id = match moesif_application_id {
            Some(id) => id,
            None => {
                return None;
            },
        };
        let env = EnvConfig {
            moesif_application_id: app_id,
            user_id_header,
            company_id_header,
            batch_max_size: match batch_max_size {
                Some(v) => v,
                None => default_batch_max_size(),
            },
            batch_max_wait: match batch_max_wait {
                Some(v) => v,
                None => default_batch_max_wait(),
            },
            upstream: match upstream {
                Some(v) => v,
                None => default_upstream(),
            },
            base_uri: match base_uri {
                Some(v) => v,
                None => default_base_uri(),
            },
            debug: match debug {
                Some(v) => v,
                None => default_debug(),
            },
            connection_timeout: match connection_timeout_ms {
                Some(v) => v,
                None => connection_timeout(),
            },
        };
        Some(env)
    }
}

/// Per-worker configuration: the environment document plus the handle of the
/// shared event queue the host registered.
#[derive(Clone)]
pub struct Config {
    pub env: EnvConfig,
    pub event_queue_id: u32,
}

// ---------------------------------------------------------------------------
// The collector's application-config response
// ---------------------------------------------------------------------------

pub struct EntityRuleValues {
    pub rules: String,
    pub values: Option<Vec<(String, String)>>,
}

pub struct RegexCondition {
    pub path: String,
    pub value: String,
}

pub struct RegexRule {
    pub conditions: Vec<RegexCondition>,
    pub sample_rate: i32,
}

/// App-level sampling and blocking configuration fetched from the collector.
/// The string-keyed maps of the wire document are held as association lists.
pub struct AppConfigResponse {
    pub org_id: String,
    pub app_id: String,
    pub sample_rate: i32,
    pub block_bot_traffic: bool,
    pub user_sample_rate: Vec<(String, i32)>,
    pub company_sample_rate: Vec<(String, i32)>,
    pub user_rules: Vec<(String, Vec<EntityRuleValues>)>,
    pub company_rules: Vec<(String, Vec<EntityRuleValues>)>,
    pub ip_addresses_blocked_by_name: Vec<(String, String)>,
    pub regex_config: Vec<RegexRule>,
    pub billing_config_jsons: Vec<(String, String)>,
    pub e_tag: Option<String>,
}

/// The first rate recorded for `key`, if any.
pub open spec fn spec_rate_lookup(entries: Seq<(String, i32)>, key: Seq<char>) -> Option<i32>
    decreases entries.len(),
{
    if entries.len() == 0 {
        None
    } else if entries[0].0@ == key {
        Some(entries[0].1)
    } else {
        spec_rate_lookup(entries.skip(1), key)
    }
}

/// The sampling percentage owed to an entity: a user-specific rate first, then
/// a company-specific rate, then the app-wide rate.
pub open spec fn spec_sampling_percentage(
    c: AppConfigResponse,
    user_id: Option<Seq<char>>,
    company_id: Option<Seq<char>>,
) -> i32 {
    if user_id is Some && spec_rate_lookup(c.user_sample_rate@, user_id->0) is Some {
        spec_rate_lookup(c.user_sample_rate@, user_id->0)->0
    } else if company_id is Some && spec_rate_lookup(c.company_sample_rate@, company_id->0)
        is Some {
        spec_rate_lookup(c.company_sample_rate@, company_id->0)->0
    } else {
        c.sample_rate
    }
}

fn rate_lookup(entries: &Vec<(String, i32)>, key: &str) -> (r: Option<i32>)
    ensures
        r == spec_rate_lookup(entries@, key@),
{
    let key_string = key.to_owned();
    let n = entries.len();
    let mut i: usize = 0;
    proof {
        assert(entries@.skip(0) =~= entries@);
    }
    while i < n
        invariant
            i <= n,
            n == entries@.len(),
            key_string@ == key@,
            spec_rate_lookup(entries@, key@) == spec_rate_lookup(entries@.skip(i as int), key@),
        decreases n - i,
    {
        proof {
            assert(entries@.skip(i as int)[0] == entries@[i as int]);
            assert(entries@.skip(i as int).skip(1) =~= entries@.skip(i + 1));
        }
        if entries[i].0 == key_string {
            return Some(entries[i].1);
        }
        i = i + 1;
    }
    proof {
        assert(entries@.skip(n as int) =~= Seq::<(String, i32)>::empty());
    }
    None
}

impl AppConfigResponse {
    /// The response assumed before any fetch: everything empty and a sampling
    /// rate of one hundred percent.
    pub fn new() -> (r: AppConfigResponse)
        ensures
            r.org_id@ == Seq::<char>::empty(),
            r.app_id@ == Seq::<char>::empty(),
            r.sample_rate == 100,
            r.block_bot_traffic == false,
            r.user_sample_rate@ == Seq::<(String, i32)>::empty(),
            r.company_sample_rate@ == Seq::<(String, i32)>::empty(),
            r.user_rules@.len() == 0,
            r.company_rules@.len() == 0,
            r.ip_addresses_blocked_by_name@.len() == 0,
            r.regex_config@.len() == 0,
            r.billing_config_jsons@.len() == 0,
            r.e_tag is None,
    {
        AppConfigResponse {
            org_id: String::new(),
            app_id: String::new(),
            sample_rate: 100,
            block_bot_traffic: false,
            user_sample_rate: Vec::new(),
            company_sample_rate: Vec::new(),
            user_rules: Vec::new(),
            company_rules: Vec::new(),
            ip_addresses_blocked_by_name: Vec::new(),
            regex_config: Vec::new(),
            billing_config_jsons: Vec::new(),
            e_tag: None,
        }
    }

    /// The rate at which an exchange attributed to these ids is sampled.
    pub fn get_sampling_percentage(&self, user_id: Option<&str>, company_id: Option<&str>) -> (r:
        i32)
        ensures
            r == spec_sampling_percentage(
                *self,
                match user_id {
                    Some(u) => Some(u@),
                    None => None,
                },
                match company_id {
                    Some(c) => Some(c@),
                    None => None,
                },
            ),
    {
        if let Some(user) = user_id {
            if let Some(user_rate) = rate_lookup(&self.user_sample_rate, user) {
                return user_rate;
            }
        }
        if let Some(company) = company_id {
            if let Some(company_rate) = rate_lookup(&self.company_sample_rate, company) {
                return company_rate;
            }
        }
        self.sample_rate
    }
}

/// The sampling percentage for the given entity ids under `config`.
pub fn get_sampling_percentage(
    config: &AppConfigResponse,
    user_id: Option<&str>,
    company_id: Option<&str>,
) -> (r: i32)
    ensures
        r == spec_sampling_percentage(
            *config,
            match user_id {
                Some(u) => Some(u@),
                None => None,
            },
            match company_id {
                Some(c) => Some(c@),
                None => None,
            },
        ),
{
    config.get_sampling_percentage(user_id, company_id)
}

} // verus!
