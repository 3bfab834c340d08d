//! The configuration of a storage node.
use vstd::prelude::*;

use crate::chunk_store::{ChunkStoreOptions, DEFAULT_FSYNC_EVERY_N_WRITES};
use crate::cluster::{endpoint, endpoint_text};
use crate::settings::{parse_bool, parsed_bool};
use crate::text::{
    parse_unsigned, parsed_unsigned, split_on, split_text, texts, trim, trimmed,
};

verus! {

/// The configuration of a storage node.
#[derive(Debug)]
pub struct StorageNodeConfig {
    pub metadata_addresses: Vec<String>,
    pub port: u16,
    pub metrics_port: u16,
    pub chunk_store_path: String,
    pub allocated_slots: Option<usize>,
    pub fsync_every_n_writes: Option<u64>,
    pub fsync_on_delete: bool,
    pub fast_recover: bool,
}

/// What a [`StorageNodeConfig`] stands for.
pub struct NodeSettings {
    pub metadata_addresses: Seq<Seq<char>>,
    pub port: u16,
    pub metrics_port: u16,
    pub chunk_store_path: Seq<char>,
    pub allocated_slots: Option<usize>,
    pub fsync_every_n_writes: Option<u64>,
    pub fsync_on_delete: bool,
    pub fast_recover: bool,
}

impl View for StorageNodeConfig {
    type V = NodeSettings;

    open spec fn view(&self) -> NodeSettings {
        NodeSettings {
            metadata_addresses: texts(self.metadata_addresses@),
            port: self.port,
            metrics_port: self.metrics_port,
            chunk_store_path: self.chunk_store_path@,
            allocated_slots: self.allocated_slots,
            fsync_every_n_writes: self.fsync_every_n_writes,
            fsync_on_delete: self.fsync_on_delete,
            fast_recover: self.fast_recover,
        }
    }
}

/// What the environment says; each value is a text that may be set.
#[derive(Debug)]
pub struct EnvOverrides {
    pub metadata_urls: Option<String>,
    pub grpc_port: Option<String>,
    pub metrics_port: Option<String>,
    pub allocated_slots: Option<String>,
    pub fsync_every_n_writes: Option<String>,
    pub fsync_on_delete: Option<String>,
    pub fast_recover: Option<String>,
}

impl EnvOverrides {
    /// An environment in which nothing is set.
    pub fn none() -> (r: Self)
        ensures
            r == (EnvOverrides {
                metadata_urls: None,
                grpc_port: None,
                metrics_port: None,
                allocated_slots: None,
                fsync_every_n_writes: None,
                fsync_on_delete: None,
                fast_recover: None,
            }),
    {
        EnvOverrides {
            metadata_urls: None,
            grpc_port: None,
            metrics_port: None,
            allocated_slots: None,
            fsync_every_n_writes: None,
            fsync_on_delete: None,
            fast_recover: None,
        }
    }
}

/// The configuration where nothing else is said.
pub open spec fn default_settings() -> NodeSettings {
    NodeSettings {
        metadata_addresses: seq!["http://localhost:3001"@],
        port: 3000,
        metrics_port: 9092,
        chunk_store_path: "chunkstore.dat"@,
        allocated_slots: None,
        fsync_every_n_writes: Some(DEFAULT_FSYNC_EVERY_N_WRITES),
        fsync_on_delete: true,
        fast_recover: false,
    }
}

impl Default for StorageNodeConfig {
    fn default() -> (r: Self)
        ensures
            r@ == default_settings(),
    {
        let mut metadata_addresses: Vec<String> = Vec::new();
        metadata_addresses.push("http://localhost:3001".to_owned());
        let r = StorageNodeConfig {
            metadata_addresses,
            port: 3000,
            metrics_port: 9092,
            chunk_store_path: "chunkstore.dat".to_owned(),
            allocated_slots: None,
            fsync_every_n_writes: Some(DEFAULT_FSYNC_EVERY_N_WRITES),
            fsync_on_delete: true,
            fast_recover: false,
        };
        assert(r@.metadata_addresses =~= default_settings().metadata_addresses);
        r
    }
}

/// Addresses with a scheme.
pub open spec fn with_schemes(addresses: Seq<Seq<char>>) -> Seq<Seq<char>> {
    addresses.map_values(|a: Seq<char>| endpoint_text(a))
}

/// The addresses in a list that is written with commas, with a scheme.
pub open spec fn listed_addresses(text: Seq<char>) -> Seq<Seq<char>> {
    split_text(text, ',').map_values(|a: Seq<char>| endpoint_text(trimmed(a)))
}

/// The number that is set, if it is one of at most `max`; otherwise what was
/// there before.
pub open spec fn number_override(text: Option<String>, max: nat, before: nat) -> nat {
    match text {
        Some(t) => match parsed_unsigned(t@, max) {
            Some(n) => n,
            None => before,
        },
        None => before,
    }
}

/// The truth value that is set, if it is one; otherwise what was there before.
pub open spec fn bool_override(text: Option<String>, before: bool) -> bool {
    match text {
        Some(t) => match parsed_bool(t@) {
            Some(b) => b,
            None => before,
        },
        None => before,
    }
}

/// The configuration with what the environment says.
pub open spec fn settings_overridden(c: NodeSettings, env: EnvOverrides) -> NodeSettings {
    NodeSettings {
        metadata_addresses: match env.metadata_urls {
            Some(text) => listed_addresses(text@),
            None => c.metadata_addresses,
        },
        port: number_override(env.grpc_port, u16::MAX as nat, c.port as nat) as u16,
        metrics_port: number_override(
            env.metrics_port,
            u16::MAX as nat,
            c.metrics_port as nat,
        ) as u16,
        allocated_slots: match env.allocated_slots {
            Some(text) => match parsed_unsigned(text@, usize::MAX as nat) {
                Some(n) => Some(n as usize),
                None => c.allocated_slots,
            },
            None => c.allocated_slots,
        },
        fsync_every_n_writes: match env.fsync_every_n_writes {
            Some(text) => match parsed_unsigned(text@, u64::MAX as nat) {
                Some(n) => Some(n as u64),
                None => c.fsync_every_n_writes,
            },
            None => c.fsync_every_n_writes,
        },
        fsync_on_delete: bool_override(env.fsync_on_delete, c.fsync_on_delete),
        fast_recover: bool_override(env.fast_recover, c.fast_recover),
        ..c
    }
}

/// What is wrong with a configuration, if anything is.
pub open spec fn settings_error(c: NodeSettings) -> Option<Seq<char>> {
    if c.metadata_addresses.len() == 0 {
        Some("metadata-addresses cannot be empty"@)
    } else if exists|i: int|
        0 <= i < c.metadata_addresses.len() && trimmed(#[trigger] c.metadata_addresses[i]).len()
            == 0 {
        Some("metadata-addresses cannot contain empty strings"@)
    } else if c.port == 0 {
        Some("port cannot be 0"@)
    } else if c.metrics_port == 0 {
        Some("metrics-port cannot be 0"@)
    } else {
        None
    }
}

fn override_port(text: &Option<String>, before: u16) -> (r: u16)
    ensures
        r == number_override(*text, u16::MAX as nat, before as nat),
{
    match text {
        Some(t) => match parse_unsigned(t.as_str(), u16::MAX as u64) {
            Some(n) => n as u16,
            None => before,
        },
        None => before,
    }
}

fn override_bool(text: &Option<String>, before: bool) -> (r: bool)
    ensures
        r == bool_override(*text, before),
{
    match text {
        Some(t) => match parse_bool(t.as_str()) {
            Some(b) => b,
            None => before,
        },
        None => before,
    }
}

impl StorageNodeConfig {
    /// Completes the configuration in a file: addresses get a scheme, the
    /// environment overrides, and the result has to be valid.
    pub fn load(file: StorageNodeConfig, env: &EnvOverrides) -> (r: Result<Self, String>)
        ensures
            ({
                let complete = settings_overridden(
                    NodeSettings {
                        metadata_addresses: with_schemes(file@.metadata_addresses),
                        ..file@
                    },
                    *env,
                );
                match r {
                    Ok(config) => settings_error(complete) is None && config@ == complete,
                    Err(message) => settings_error(complete) == Some(message@),
                }
            }),
    {
        let mut config: StorageNodeConfig = file;
        config.normalize_addresses();
        config.apply_env_overrides(env);
        match config.validate() {
            Ok(()) => Ok(config),
            Err(message) => Err(message),
        }
    }

    /// Gives every address a scheme.
    fn normalize_addresses(&mut self)
        ensures
            final(self)@ == (NodeSettings {
                metadata_addresses: with_schemes(old(self)@.metadata_addresses),
                ..old(self)@
            }),
    {
        let ghost all = texts(self.metadata_addresses@);
        let mut r: Vec<String> = Vec::new();
        let mut i: usize = 0;
        while i < self.metadata_addresses.len()
            invariant
                i <= self.metadata_addresses@.len(),
                all == texts(self.metadata_addresses@),
                self@ == old(self)@,
                r@.len() == i,
                forall|k: int| 0 <= k < i ==> (#[trigger] r@[k])@ == endpoint_text(all[k]),
            decreases self.metadata_addresses@.len() - i,
        {
            assert(all[i as int] == self.metadata_addresses@[i as int]@);
            r.push(endpoint(self.metadata_addresses[i].as_str()));
            i = i + 1;
        }
        assert(texts(r@) =~= with_schemes(all)) by {
            assert forall|k: int| 0 <= k < r@.len() implies texts(r@)[k] == with_schemes(all)[k] by {
                assert(r@[k]@ == endpoint_text(all[k]));
            }
        }
        self.metadata_addresses = r;
    }

    /// Whether the configuration is valid, or what is wrong with it.
    pub fn validate(&self) -> (r: Result<(), String>)
        ensures
            match r {
                Ok(()) => settings_error(self@) is None,
                Err(message) => settings_error(self@) == Some(message@),
            },
    {
        if self.metadata_addresses.len() == 0 {
            return Err("metadata-addresses cannot be empty".to_owned());
        }
        let ghost all = texts(self.metadata_addresses@);
        let mut i: usize = 0;
        while i < self.metadata_addresses.len()
            invariant
                i <= self.metadata_addresses@.len(),
                all == texts(self.metadata_addresses@),
                all.len() > 0,
                forall|k: int| 0 <= k < i ==> trimmed(#[trigger] all[k]).len() != 0,
            decreases self.metadata_addresses@.len() - i,
        {
            assert(all[i as int] == self.metadata_addresses@[i as int]@);
            if trim(self.metadata_addresses[i].as_str()).as_str().is_empty() {
                return Err("metadata-addresses cannot contain empty strings".to_owned());
            }
            i = i + 1;
        }
        if self.port == 0 {
            return Err("port cannot be 0".to_owned());
        }
        if self.metrics_port == 0 {
            return Err("metrics-port cannot be 0".to_owned());
        }
        Ok(())
    }

    /// Takes over what the environment says. What is set but cannot be read is
    /// no matter.
    pub fn apply_env_overrides(&mut self, env: &EnvOverrides)
        ensures
            final(self)@ == settings_overridden(old(self)@, *env),
    {
        if let Some(urls) = &env.metadata_urls {
            self.metadata_addresses = parse_addresses(urls.as_str());
        }
        self.port = override_port(&env.grpc_port, self.port);
        self.metrics_port = override_port(&env.metrics_port, self.metrics_port);
        if let Some(text) = &env.allocated_slots {
            if let Some(n) = parse_unsigned(text.as_str(), usize::MAX as u64) {
                self.allocated_slots = Some(n as usize);
            }
        }
        if let Some(text) = &env.fsync_every_n_writes {
            if let Some(n) = parse_unsigned(text.as_str(), u64::MAX) {
                self.fsync_every_n_writes = Some(n);
            }
        }
        self.fsync_on_delete = override_bool(&env.fsync_on_delete, self.fsync_on_delete);
        self.fast_recover = override_bool(&env.fast_recover, self.fast_recover);
    }

    /// How careful the chunk store is to be.
    pub fn chunk_store_options(&self) -> (r: ChunkStoreOptions)
        ensures
            r == (ChunkStoreOptions {
                fsync_every_n_writes: self@.fsync_every_n_writes,
                fsync_on_delete: self@.fsync_on_delete,
                fast_recover: self@.fast_recover,
            }),
    {
        ChunkStoreOptions {
            fsync_every_n_writes: self.fsync_every_n_writes,
            fsync_on_delete: self.fsync_on_delete,
            fast_recover: self.fast_recover,
        }
    }
}

/// The addresses in a list that is written with commas, with a scheme.
fn parse_addresses(text: &str) -> (r: Vec<String>)
    ensures
        texts(r@) == listed_addresses(text@),
{
    let pieces: Vec<String> = split_on(text, ',');
    let ghost all = texts(pieces@);
    let mut r: Vec<String> = Vec::new();
    let mut i: usize = 0;
    while i < pieces.len()
        invariant
            i <= pieces@.len(),
            all == texts(pieces@),
            r@.len() == i,
            forall|k: int| 0 <= k < i ==> (#[trigger] r@[k])@ == endpoint_text(trimmed(all[k])),
        decreases pieces@.len() - i,
    {
        assert(all[i as int] == pieces@[i as int]@);
        r.push(endpoint(trim(pieces[i].as_str()).as_str()));
        i = i + 1;
    }
    assert(texts(r@) =~= listed_addresses(text@)) by {
        assert forall|k: int| 0 <= k < r@.len() implies texts(r@)[k]
            == listed_addresses(text@)[k] by {
            assert(r@[k]@ == endpoint_text(trimmed(all[k])));
        }
    }
    r
}

/// Giving an address a scheme twice is giving it once.
pub proof fn schemes_are_added_once(address: Seq<char>)
    ensures
        endpoint_text(endpoint_text(address)) == endpoint_text(address),
{
    let done = endpoint_text(address);
    if done == "http://"@ + address {
        assert(done.subrange(0, "http://"@.len() as int) =~= "http://"@);
        assert("http://"@.is_prefix_of(done));
    }
}

/// Without a word from the environment the configuration stays as it is.
pub proof fn an_empty_environment_overrides_nothing(c: NodeSettings)
    ensures
        settings_overridden(
            c,
            EnvOverrides {
                metadata_urls: None,
                grpc_port: None,
                metrics_port: None,
                allocated_slots: None,
                fsync_every_n_writes: None,
                fsync_on_delete: None,
                fast_recover: None,
            },
        ) == c,
{
}

} // verus!
