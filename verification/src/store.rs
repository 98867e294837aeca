//! The durable side of the configuration: what the backing location holds,
//! as a value. Whoever owns the location reads it into a store before the
//! work and writes the store out after it.

use crate::codec::{
    config_bytes, config_fits, decode, encode, lemma_read_config_is_stored,
    lemma_stored_config_reads_back, stored_config,
};
use crate::config::{Config, ConfigView};
use crate::error::Error;
use vstd::prelude::*;

verus! {

/// The contents of the backing location: nothing, or the bytes found there.
#[derive(Debug, PartialEq, Eq)]
pub struct ConfigStore {
    pub contents: Option<Vec<u8>>,
}

impl View for ConfigStore {
    type V = Option<Seq<u8>>;

    open spec fn view(&self) -> Option<Seq<u8>> {
        match self.contents {
            Some(bytes) => Some(bytes@),
            None => None,
        }
    }
}

/// The configuration that a location with these contents holds.
pub open spec fn held_config(contents: Option<Seq<u8>>) -> Option<ConfigView> {
    match contents {
        Some(bytes) => stored_config(bytes),
        None => None,
    }
}

impl ConfigStore {
    /// The store of a location that does not exist.
    pub fn absent() -> (store: ConfigStore)
        ensures
            store@ is None,
    {
        ConfigStore { contents: None }
    }

    /// The store of a location that holds `bytes`.
    pub fn holding(bytes: Vec<u8>) -> (store: ConfigStore)
        ensures
            store@ == Some(bytes@),
    {
        ConfigStore { contents: Some(bytes) }
    }

    /// Whether the location is present and reads as a configuration.
    pub fn holds_config(&self) -> (present: bool)
        ensures
            present == (held_config(self@) is Some),
    {
        match &self.contents {
            Some(bytes) => decode(bytes.as_slice()).is_ok(),
            None => false,
        }
    }

    /// The configuration that the location holds.
    pub fn load(&self) -> (loaded: Result<Config, Error>)
        ensures
            match loaded {
                Ok(config) => held_config(self@) == Some(config@),
                Err(e) => held_config(self@) is None && e == (if self@ is None {
                    Error::NotFound
                } else {
                    Error::Corrupt
                }),
            },
    {
        match &self.contents {
            Some(bytes) => decode(bytes.as_slice()),
            None => Err(Error::NotFound),
        }
    }

    /// Replaces whatever the location holds by the stored form of `config`.
    pub fn save(&mut self, config: &Config)
        ensures
            config_fits(config@),
            final(self)@ == Some(config_bytes(config@)),
            config@.wf() ==> held_config(final(self)@) == Some(config@),
    {
        self.contents = Some(encode(config));
        proof {
            if config@.wf() {
                lemma_stored_config_reads_back(config@);
            }
        }
    }

    /// Removes the location; nothing happens where it is absent already.
    pub fn delete(&mut self)
        ensures
            final(self)@ is None,
            held_config(final(self)@) is None,
    {
        self.contents = None;
    }
}

/// Saving a configuration and loading it again gives the configuration
/// that was saved, field for field and with the squadmates in their order.
pub proof fn lemma_saved_config_loads(config: ConfigView)
    requires
        config.wf(),
        config_fits(config),
    ensures
        held_config(Some(config_bytes(config))) == Some(config),
{
    lemma_stored_config_reads_back(config);
}

/// Whatever a location holds, the configuration read from it keeps the
/// invariant, and the location holds exactly its stored form.
pub proof fn lemma_held_config_is_well_formed(contents: Option<Seq<u8>>)
    ensures
        match held_config(contents) {
            Some(config) => config.wf() && contents == Some(config_bytes(config)),
            None => true,
        },
{
    if contents is Some {
        lemma_read_config_is_stored(contents->0);
    }
}

} // verus!
