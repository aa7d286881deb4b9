//! How a serialized collection is stored: plain text, or sealed with the
//! encryption codec.

use vstd::prelude::*;
use crate::codec::{decrypt_data, encrypt_data, envelope_of, random_bytes, sealable, NONCE_LEN};
use crate::config::{Config, ensured_key};

verus! {

/// How payloads are written.
#[derive(Debug, Clone, Copy, PartialEq, Eq)]
pub enum Protection {
    Plain,
    /// Sealed under this key.
    Encrypted([u8; 32]),
}

impl Protection {
    /// `r` is the protection, and the configuration to store if any, that
    /// `config` gives with the random bytes `fresh`.
    pub open spec fn outcome(config: &Config, fresh: Seq<u8>, r: (Protection, Option<Config>)) -> bool {
        if !config.encryption_enabled {
            r.0 == Protection::Plain && r.1 is None
        } else {
            &&& r.0 matches Protection::Encrypted(k) && k@ == ensured_key(config.key_text(), fresh).0
            &&& match ensured_key(config.key_text(), fresh).1 {
                Some(s) => r.1 is Some && r.1->0.key_text() == Some(s)
                    && r.1->0.same_besides_key(config),
                None => r.1 is None,
            }
        }
    }

    /// The protection that `config` asks for, given freshly drawn random
    /// bytes for a key that does not exist yet, and the configuration to
    /// store when a key text was created. The key is the one that the stored
    /// key text gives from then on.
    pub fn establish(config: &Config, fresh: &[u8; 32]) -> (r: (Protection, Option<Config>))
        ensures
            Protection::outcome(config, fresh@, r),
    {
        if !config.encryption_enabled {
            return (Protection::Plain, None);
        }
        let (key, updated) = config.ensure_key(fresh);
        (Protection::Encrypted(key), updated)
    }

    /// [`Protection::establish`] with random bytes drawn only when needed.
    /// When they are needed and the random source fails, payloads stay plain
    /// and the configuration is left alone.
    pub fn for_config(config: &Config) -> (r: (Protection, Option<Config>))
        ensures
            (exists|fresh: Seq<u8>|
                fresh.len() == 32 && #[trigger] Protection::outcome(config, fresh, r)) || (
            config.encryption_enabled && config.encryption_key is None && r.0 == Protection::Plain
                && r.1 is None),
            config.encryption_enabled && config.encryption_key is Some ==> exists|fresh: Seq<u8>|
                fresh.len() == 32 && #[trigger] Protection::outcome(config, fresh, r),
    {
        if config.encryption_enabled && config.encryption_key.is_none() {
            match random_bytes() {
                Some(fresh) => {
                    let r = Protection::establish(config, &fresh);
                    assert(Protection::outcome(config, fresh@, r));
                    r
                },
                None => (Protection::Plain, None),
            }
        } else {
            let unused = [0u8; 32];
            let r = Protection::establish(config, &unused);
            assert(Protection::outcome(config, unused@, r));
            r
        }
    }

    /// What to write for the serialized collection `text`: the text itself,
    /// or an envelope sealing it under the key with a fresh nonce. `None`
    /// only when the text is too long to seal or no nonce could be drawn.
    pub fn save_payload(&self, text: &str) -> (r: Option<String>)
        ensures
            *self == Protection::Plain ==> r is Some && r->0@ == text@,
            self matches Protection::Encrypted(k) ==> (r is Some ==> sealable(text@) && exists|
                n: Seq<u8>,
            | n.len() == NONCE_LEN && r->0@ == envelope_of(k@, n, text@)) && (!sealable(text@)
                ==> r is None),
    {
        match self {
            Protection::Plain => Some(String::from_str(text)),
            Protection::Encrypted(k) => encrypt_data(text, k),
        }
    }

    /// The second reading of stored text whose plain reading failed: the
    /// text that the envelope seals, when payloads are encrypted and it
    /// opens under the key. An envelope that [`Protection::save_payload`]
    /// wrote for some text gives that text back.
    pub fn decrypted_reading(&self, stored: &str) -> (r: Option<String>)
        ensures
            *self == Protection::Plain ==> r is None,
            self matches Protection::Encrypted(k) ==> (forall|n: Seq<u8>, t: Seq<char>|
                n.len() == NONCE_LEN && sealable(t) && #[trigger] envelope_of(k@, n, t)
                    == stored@ ==> r is Some && r->0@ == t),
            self matches Protection::Encrypted(k) ==> (r is Some ==> exists|n: Seq<u8>|
                n.len() == NONCE_LEN && envelope_of(k@, n, r->0@) == stored@),
    {
        match self {
            Protection::Plain => None,
            Protection::Encrypted(k) => match decrypt_data(stored, k) {
                Ok(t) => Some(t),
                Err(_) => None,
            },
        }
    }
}

} // verus!
