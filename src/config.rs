use vstd::prelude::*;
use crate::text::{lower_of, lowercase, same_text};

verus! {

/// Name of the configuration file under the application's directory.
pub const CONFIG_FILE_NAME: &'static str = "config.toml";

/// A named set of defaults.
#[derive(Debug)]
pub struct Profile {
    pub provider: Option<String>,
    pub api_key: Option<String>,
    pub model: Option<String>,
}

/// Capability values that replace what is inferred for a model.
#[derive(Debug)]
pub struct ModelCapsOverride {
    pub streaming: Option<bool>,
    pub context_window: Option<u32>,
    pub supports_json: Option<bool>,
    pub supports_tools: Option<bool>,
    pub modalities: Option<Vec<String>>,
}

/// The user's configuration. Keys of `profiles` and `model_overrides` are
/// unique; an override key is either "provider:model" or just "model".
#[derive(Debug)]
pub struct AppConfig {
    pub default_profile: Option<String>,
    pub profiles: Vec<(String, Profile)>,
    pub model_overrides: Vec<(String, ModelCapsOverride)>,
}

/// Provider and model that a command runs with.
#[derive(Debug)]
pub struct EffectiveSettings {
    pub provider: String,
    pub model: String,
}

/// The view of an optional string.
pub open spec fn opt_chars(o: Option<String>) -> Option<Seq<char>> {
    match o {
        Some(s) => Some(s@),
        None => None,
    }
}

/// Index of the first entry whose key is `key`.
pub open spec fn first_key<V>(entries: Seq<(String, V)>, key: Seq<char>) -> Option<int> {
    if exists|i: int| 0 <= i < entries.len() && entries[i].0@ == key {
        Some(
            choose|i: int|
                0 <= i < entries.len() && entries[i].0@ == key && forall|j: int|
                    0 <= j < i ==> entries[j].0@ != key,
        )
    } else {
        None
    }
}

/// Finds the first entry with the given key.
fn find_key<V>(entries: &Vec<(String, V)>, key: &str) -> (r: Option<usize>)
    ensures
        r matches Some(i) ==> i < entries@.len() && entries@[i as int].0@ == key@ && forall|j: int|
            0 <= j < i ==> entries@[j].0@ != key@,
        r is None ==> forall|j: int| 0 <= j < entries@.len() ==> entries@[j].0@ != key@,
{
    let mut i: usize = 0;
    while i < entries.len()
        invariant
            i <= entries@.len(),
            forall|j: int| 0 <= j < i ==> entries@[j].0@ != key@,
        decreases entries@.len() - i,
    {
        if same_text(entries[i].0.as_str(), key) {
            return Some(i);
        }
        i = i + 1;
    }
    None
}

/// Settings from a profile's field, a command-line value and a default:
/// the command line wins, then the profile, then the default.
pub open spec fn pick(cli: Option<Seq<char>>, profile: Option<Seq<char>>, default: Seq<char>) -> Seq<char> {
    match cli {
        Some(c) => c,
        None => match profile {
            Some(p) => p,
            None => default,
        },
    }
}

/// The profile a configuration selects: the named override, else the
/// configured default profile, else "default".
pub open spec fn selected_profile_name(cfg: AppConfig, profile_override: Option<Seq<char>>) -> Seq<char> {
    match profile_override {
        Some(p) => p,
        None => match cfg.default_profile {
            Some(d) => d@,
            None => "default"@,
        },
    }
}

/// The profile entry that a configuration selects, if it has one.
pub open spec fn selected_profile(cfg: Option<&AppConfig>, profile_override: Option<Seq<char>>) -> Option<Profile> {
    match cfg {
        Some(c) => match first_key(c.profiles@, selected_profile_name(*c, profile_override)) {
            Some(i) => Some(c.profiles@[i].1),
            None => None,
        },
        None => None,
    }
}

/// The view of an optional text slice.
pub open spec fn opt_str(o: Option<&str>) -> Option<Seq<char>> {
    match o {
        Some(s) => Some(s@),
        None => None,
    }
}

/// Provider and model for a command: command-line values first, then the
/// selected profile of the configuration (if any), then "openai" and
/// "gpt-4o-mini".
pub fn resolve_effective_settings(
    cfg: Option<&AppConfig>,
    profile_override: Option<&str>,
    cli_provider: Option<&str>,
    cli_model: Option<&str>,
) -> (r: EffectiveSettings)
    ensures
        ({
            let p = selected_profile(cfg, opt_str(profile_override));
            &&& r.provider@ == pick(
                opt_str(cli_provider),
                match p {
                    Some(p) => opt_chars(p.provider),
                    None => None,
                },
                "openai"@,
            )
            &&& r.model@ == pick(
                opt_str(cli_model),
                match p {
                    Some(p) => opt_chars(p.model),
                    None => None,
                },
                "gpt-4o-mini"@,
            )
        }),
{
    let mut provider: Option<String> = None;
    let mut model: Option<String> = None;
    if let Some(c) = cfg {
        let name: String = match profile_override {
            Some(p) => p.to_owned(),
            None => match &c.default_profile {
                Some(d) => d.clone(),
                None => "default".to_owned(),
            },
        };
        match find_key(&c.profiles, name.as_str()) {
            Some(i) => {
                proof {
                    let k = selected_profile_name(*c, opt_str(profile_override));
                    assert(k == name@);
                    assert(exists|x: int| 0 <= x < c.profiles@.len() && c.profiles@[x].0@ == k);
                    let ch = first_key(c.profiles@, k)->0;
                    if ch < i {
                        assert(c.profiles@[ch].0@ != k);
                    }
                    if i < ch {
                        assert(c.profiles@[i as int].0@ != k);
                    }
                }
                let p = &c.profiles[i].1;
                if let Some(pv) = &p.provider {
                    provider = Some(pv.clone());
                }
                if let Some(m) = &p.model {
                    model = Some(m.clone());
                }
            },
            None => {},
        }
    }
    if let Some(cp) = cli_provider {
        provider = Some(cp.to_owned());
    }
    if let Some(cm) = cli_model {
        model = Some(cm.to_owned());
    }
    let provider = match provider {
        Some(p) => p,
        None => "openai".to_owned(),
    };
    let model = match model {
        Some(m) => m,
        None => "gpt-4o-mini".to_owned(),
    };
    EffectiveSettings { provider, model }
}

/// The override a configuration holds for a model: the entry keyed by the
/// lower-cased provider, a colon and the model, else the one keyed by the
/// model alone.
pub open spec fn override_index(cfg: AppConfig, provider: Seq<char>, model: Seq<char>) -> Option<int> {
    match first_key(cfg.model_overrides@, lower_of(provider) + ":"@ + model) {
        Some(i) => Some(i),
        None => first_key(cfg.model_overrides@, model),
    }
}

impl AppConfig {
    /// Finds the capability override for a provider and model, falling back
    /// to the entry keyed by the model alone.
    pub fn find_model_override(&self, provider: &str, model: &str) -> (r: Option<&ModelCapsOverride>)
        ensures
            match override_index(*self, provider@, model@) {
                Some(i) => r == Some(&self.model_overrides@[i].1),
                None => r is None,
            },
    {
        let mut key_full = lowercase(provider);
        key_full.append(":");
        key_full.append(model);
        match find_key(&self.model_overrides, key_full.as_str()) {
            Some(i) => {
                proof {
                    lemma_first_key_is(self.model_overrides@, key_full@, i as int);
                }
                Some(&self.model_overrides[i].1)
            },
            None => match find_key(&self.model_overrides, model) {
                Some(i) => {
                    proof {
                        lemma_first_key_is(self.model_overrides@, model@, i as int);
                    }
                    Some(&self.model_overrides[i].1)
                },
                None => None,
            },
        }
    }
}

/// An entry with the key and none before it is the first one.
pub proof fn lemma_first_key_is<V>(entries: Seq<(String, V)>, key: Seq<char>, i: int)
    requires
        0 <= i < entries.len(),
        entries[i].0@ == key,
        forall|j: int| 0 <= j < i ==> entries[j].0@ != key,
    ensures
        first_key(entries, key) == Some(i),
{
    let ch = first_key(entries, key)->0;
    if ch < i {
        assert(entries[ch].0@ != key);
    }
    if i < ch {
        assert(entries[i].0@ != key);
    }
}

/// No two entries share a key.
pub open spec fn keys_unique<V>(entries: Seq<(String, V)>) -> bool {
    forall|i: int, j: int| 0 <= i < j < entries.len() ==> entries[i].0@ != entries[j].0@
}

/// Whether no two entries share a key.
fn unique_keys<V>(entries: &Vec<(String, V)>) -> (r: bool)
    ensures
        r == keys_unique(entries@),
{
    let n = entries.len();
    let mut j: usize = 0;
    while j < n
        invariant
            n == entries@.len(),
            j <= n,
            forall|a: int, b: int| 0 <= a < b < j ==> entries@[a].0@ != entries@[b].0@,
        decreases n - j,
    {
        let mut i: usize = 0;
        while i < j
            invariant
                n == entries@.len(),
                i <= j < n,
                forall|a: int| 0 <= a < i ==> entries@[a].0@ != entries@[j as int].0@,
            decreases j - i,
        {
            if same_text(entries[i].0.as_str(), entries[j].0.as_str()) {
                return false;
            }
            i = i + 1;
        }
        j = j + 1;
    }
    true
}

impl AppConfig {
    /// The invariant of a configuration: profile names are unique, and so
    /// are override keys (as in the keyed tables the file holds).
    pub open spec fn wf(&self) -> bool {
        keys_unique(self.profiles@) && keys_unique(self.model_overrides@)
    }

    /// Whether the configuration keeps its invariant.
    pub fn is_well_formed(&self) -> (r: bool)
        ensures
            r == self.wf(),
    {
        unique_keys(&self.profiles) && unique_keys(&self.model_overrides)
    }
}

/// In a table with unique keys (as in a well-formed configuration) the
/// lookups find the one entry with the key, as a keyed map would.
pub proof fn lemma_unique_key<V>(entries: Seq<(String, V)>, key: Seq<char>, i: int)
    requires
        keys_unique(entries),
        0 <= i < entries.len(),
        entries[i].0@ == key,
    ensures
        first_key(entries, key) == Some(i),
{
    assert forall|j: int| 0 <= j < i implies entries[j].0@ != key by {
        assert(entries[j].0@ != entries[i].0@);
    }
    lemma_first_key_is(entries, key, i);
}

} // verus!
