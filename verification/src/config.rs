//! Configuration model and its rules: defaults, validation, backend-setting
//! coercion, and the choice of the effective property map. Loading the
//! configuration from files and the environment happens outside the library.

use vstd::prelude::*;

use crate::json::Json;
use crate::props::{spec_value_to_string, value_to_string};
use crate::strings::{spec_trim, trim_str};

verus! {

/// Upstream API credentials.
#[derive(Clone)]
pub struct NotionConfig {
    pub api_key: String,
}

impl Default for NotionConfig {
    fn default() -> (r: Self)
        ensures
            r.api_key@.len() == 0,
    {
        NotionConfig { api_key: String::new() }
    }
}

/// Webhook ingress settings.
#[derive(Clone)]
pub struct WebhookConfig {
    pub host: String,
    pub port: u16,
    pub secret: Option<String>,
    pub max_age_seconds: u64,
}

/// The default webhook bind host.
pub fn default_webhook_host() -> (r: String)
    ensures
        r@ == "0.0.0.0"@,
{
    let mut out = String::new();
    out.append("0.0.0.0");
    proof {
        assert(out@ =~= "0.0.0.0"@);
    }
    out
}

/// The default webhook port.
pub fn default_webhook_port() -> (r: u16)
    ensures
        r == 3000,
{
    3000
}

/// The default freshness window for webhook events, in seconds.
pub fn default_webhook_max_age_seconds() -> (r: u64)
    ensures
        r == 300,
{
    300
}

impl Default for WebhookConfig {
    fn default() -> (r: Self)
        ensures
            r.host@ == "0.0.0.0"@,
            r.port == 3000,
            r.secret is None,
            r.max_age_seconds == 300,
    {
        WebhookConfig {
            host: default_webhook_host(),
            port: default_webhook_port(),
            secret: None,
            max_age_seconds: default_webhook_max_age_seconds(),
        }
    }
}

/// Queue settings: an empty or absent broker URL selects the in-process
/// queue.
#[derive(Clone)]
pub struct QueueConfig {
    pub name: String,
    pub redis_url: Option<String>,
}

/// Whether the external list-broker is selected: a URL is present and not
/// blank.
pub open spec fn spec_uses_broker(redis_url: Option<String>) -> bool {
    match redis_url {
        None => false,
        Some(u) => spec_trim(u@).len() > 0,
    }
}

impl QueueConfig {
    /// Whether this configuration selects the external list-broker.
    pub fn uses_broker(&self) -> (r: bool)
        ensures
            r == spec_uses_broker(self.redis_url),
    {
        match &self.redis_url {
            None => false,
            Some(u) => {
                let t = trim_str(u.as_str());
                t.unicode_len() > 0
            },
        }
    }
}

/// One storage backend: a scheme and its settings.
pub struct BackendConfig {
    pub scheme: String,
    pub settings: Vec<(String, Json)>,
}

/// The settings coerced to strings: strings as they are, numbers and booleans
/// spelled out, other values dropped.
pub open spec fn spec_settings_as_strings(settings: Seq<(String, Json)>) -> Seq<
    (Seq<char>, Seq<char>),
>
    decreases settings.len(),
{
    if settings.len() == 0 {
        Seq::empty()
    } else {
        let rest = spec_settings_as_strings(settings.drop_last());
        let v = settings.last().1;
        if v is Str || v is Num || v is Bool {
            match spec_value_to_string(v) {
                Some(s) => rest.push((settings.last().0@, s)),
                None => rest,
            }
        } else {
            rest
        }
    }
}

/// The (key, value) views of a string map.
pub open spec fn str_pairs_view(v: Seq<(String, String)>) -> Seq<(Seq<char>, Seq<char>)> {
    v.map_values(|e: (String, String)| (e.0@, e.1@))
}

impl BackendConfig {
    /// Coerces the settings to the string map the storage driver takes.
    pub fn settings_as_strings(&self) -> (r: Vec<(String, String)>)
        ensures
            str_pairs_view(r@) == spec_settings_as_strings(self.settings@),
    {
        let mut out: Vec<(String, String)> = Vec::new();
        let mut i: usize = 0;
        proof {
            assert(self.settings@.take(0) =~= Seq::<(String, Json)>::empty());
            assert(str_pairs_view(out@) =~= spec_settings_as_strings(self.settings@.take(0)));
        }
        while i < self.settings.len()
            invariant
                0 <= i <= self.settings@.len(),
                str_pairs_view(out@) == spec_settings_as_strings(self.settings@.take(i as int)),
            decreases self.settings@.len() - i,
        {
            let v = &self.settings[i].1;
            let keep = match v {
                Json::Str(_) => true,
                Json::Num { .. } => true,
                Json::Bool(_) => true,
                _ => false,
            };
            if keep {
                match value_to_string(v) {
                    Some(s) => {
                        let key = self.settings[i].0.clone();
                        out.push((key, s));
                    },
                    None => {},
                }
            }
            proof {
                assert(self.settings@.take(i as int + 1).drop_last() =~= self.settings@.take(
                    i as int,
                ));
                assert(self.settings@.take(i as int + 1).last() == self.settings@[i as int]);
                assert(str_pairs_view(out@) =~= spec_settings_as_strings(
                    self.settings@.take(i as int + 1),
                ));
            }
            i = i + 1;
        }
        proof {
            assert(self.settings@.take(self.settings@.len() as int) =~= self.settings@);
        }
        out
    }
}

/// One configured database: its id, its storage backends (the first is
/// used), and its property-mapping policy.
pub struct DatabaseConfig {
    pub id: String,
    pub storage: Vec<BackendConfig>,
    pub key_map: Vec<(String, String)>,
    pub properties_map: Vec<(String, String)>,
    pub property_includes: Option<Vec<String>>,
}

impl DatabaseConfig {
    /// The property map in force: `properties.map` overrides `key_map` when
    /// non-empty.
    pub fn effective_key_map(&self) -> (r: &Vec<(String, String)>)
        ensures
            r@ == if self.properties_map@.len() > 0 {
                self.properties_map@
            } else {
                self.key_map@
            },
    {
        if self.properties_map.len() > 0 {
            &self.properties_map
        } else {
            &self.key_map
        }
    }
}

/// The whole configuration.
pub struct AppConfig {
    pub notion: NotionConfig,
    pub webhook: WebhookConfig,
    pub queue: QueueConfig,
    pub sync_interval_seconds: u64,
    pub database: Vec<(String, DatabaseConfig)>,
}

/// When a configuration is acceptable: a non-blank API key, at least one
/// database, and a storage backend for each.
pub open spec fn spec_config_valid(c: AppConfig) -> bool {
    &&& spec_trim(c.notion.api_key@).len() > 0
    &&& c.database@.len() > 0
    &&& forall|i: int| 0 <= i < c.database@.len() ==> c.database@[i].1.storage@.len() > 0
}

impl AppConfig {
    /// Checks the configuration, exactly the acceptance conditions.
    pub fn validate(&self) -> (r: bool)
        ensures
            r == spec_config_valid(*self),
    {
        let key = trim_str(self.notion.api_key.as_str());
        if key.unicode_len() == 0 {
            return false;
        }
        if self.database.len() == 0 {
            return false;
        }
        let mut i: usize = 0;
        while i < self.database.len()
            invariant
                0 <= i <= self.database@.len(),
                forall|t: int| 0 <= t < i ==> self.database@[t].1.storage@.len() > 0,
            decreases self.database@.len() - i,
        {
            if self.database[i].1.storage.len() == 0 {
                return false;
            }
            i = i + 1;
        }
        true
    }
}

/// The rescanner's tick period: the configured interval, at least one second.
pub fn effective_scan_interval(interval_seconds: u64) -> (r: u64)
    ensures
        r == if interval_seconds > 1 {
            interval_seconds as int
        } else {
            1int
        },
{
    if interval_seconds > 1 {
        interval_seconds
    } else {
        1
    }
}

} // verus!
