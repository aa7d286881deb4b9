//! Configuration and encryption-key establishment.

use vstd::prelude::*;
use vstd::utf8::encode_utf8;
use crate::codec::{base64_encode, base64_of, random_bytes, sha256, sha256_of};
use crate::history::DEFAULT_CAPACITY;

verus! {

/// The global hotkey that shows the window: modifiers and a key name.
#[derive(Debug, Clone)]
pub struct HotkeyConfig {
    pub ctrl: bool,
    pub alt: bool,
    pub shift: bool,
    pub key: String,
}

impl Default for HotkeyConfig {
    /// Ctrl+Alt+C.
    fn default() -> (r: HotkeyConfig)
        ensures
            r.ctrl && r.alt && !r.shift && r.key@ == seq!['c'],
    {
        let key = String::from_str("c");
        proof {
            reveal_strlit("c");
        }
        HotkeyConfig { ctrl: true, alt: true, shift: false, key }
    }
}

/// User settings.
#[derive(Debug, Clone)]
pub struct Config {
    pub verbose: bool,
    pub theme: String,
    /// Capacity of the history.
    pub max_items: usize,
    pub hotkey: HotkeyConfig,
    pub encryption_enabled: bool,
    /// Text from which the encryption key is derived.
    pub encryption_key: Option<String>,
    pub autostart_enabled: bool,
}

impl Default for Config {
    /// Dark theme, 500 entries, encryption on with no key yet, no autostart.
    fn default() -> (r: Config)
        ensures
            !r.verbose,
            r.theme@ == seq!['d', 'a', 'r', 'k'],
            r.max_items == DEFAULT_CAPACITY,
            r.hotkey.ctrl && r.hotkey.alt && !r.hotkey.shift && r.hotkey.key@ == seq!['c'],
            r.encryption_enabled,
            r.encryption_key is None,
            !r.autostart_enabled,
    {
        let theme = String::from_str("dark");
        proof {
            reveal_strlit("dark");
        }
        Config {
            verbose: false,
            theme,
            max_items: DEFAULT_CAPACITY,
            hotkey: HotkeyConfig::default(),
            encryption_enabled: true,
            encryption_key: None,
            autostart_enabled: false,
        }
    }
}

/// The key derived from a configured key text: SHA-256 of its UTF-8 bytes.
pub open spec fn key_from_text(s: Seq<char>) -> Seq<u8> {
    sha256_of(encode_utf8(s))
}

/// The key and, when the configuration had none, the key text to store in
/// it, given the configured key text and freshly drawn random bytes.
pub open spec fn ensured_key(configured: Option<Seq<char>>, fresh: Seq<u8>) -> (Seq<u8>, Option<
    Seq<char>,
>) {
    match configured {
        Some(s) => (key_from_text(s), None),
        None => (key_from_text(base64_of(fresh)), Some(base64_of(fresh))),
    }
}

/// Once a key text is stored, establishing the key again gives the same key
/// and asks for no further change, whatever random bytes are drawn.
pub proof fn law_key_is_stable(configured: Option<Seq<char>>, fresh: Seq<u8>, later: Seq<u8>)
    ensures
        ({
            let (key, stored) = ensured_key(configured, fresh);
            let updated = match stored {
                Some(s) => Some(s),
                None => configured,
            };
            ensured_key(updated, later) == (key, None::<Seq<char>>)
        }),
{
}

/// The key derived from the key text `s`.
pub fn derive_key(s: &str) -> (r: [u8; 32])
    ensures
        r@ == key_from_text(s@),
{
    sha256(s.as_bytes())
}

impl Config {
    /// The configured key text, as a sequence.
    pub open spec fn key_text(&self) -> Option<Seq<char>> {
        match self.encryption_key {
            Some(s) => Some(s@),
            None => None,
        }
    }

    /// `self` and `o` agree on every setting but the key text.
    pub open spec fn same_besides_key(&self, o: &Config) -> bool {
        &&& self.verbose == o.verbose
        &&& self.theme@ == o.theme@
        &&& self.max_items == o.max_items
        &&& self.hotkey.ctrl == o.hotkey.ctrl
        &&& self.hotkey.alt == o.hotkey.alt
        &&& self.hotkey.shift == o.hotkey.shift
        &&& self.hotkey.key@ == o.hotkey.key@
        &&& self.encryption_enabled == o.encryption_enabled
        &&& self.autostart_enabled == o.autostart_enabled
    }

    /// `r` is the key, and the configuration to store if any, that `self`
    /// gives with the random bytes `fresh`: the key is derived from the key
    /// text that the configuration holds from then on.
    pub open spec fn key_outcome(&self, fresh: Seq<u8>, r: ([u8; 32], Option<Config>)) -> bool {
        &&& r.0@ == ensured_key(self.key_text(), fresh).0
        &&& match ensured_key(self.key_text(), fresh).1 {
            Some(s) => r.1 is Some && r.1->0.key_text() == Some(s) && r.1->0.same_besides_key(
                self,
            ),
            None => r.1 is None,
        }
    }

    /// The encryption key, and the configuration to store when it had no key
    /// text yet. `fresh` is used only in that case: its base64 form becomes
    /// the key text, and the key is derived from that text, so it is the same
    /// key that the updated configuration gives from then on.
    pub fn ensure_key(&self, fresh: &[u8; 32]) -> (r: ([u8; 32], Option<Config>))
        ensures
            self.key_outcome(fresh@, r),
    {
        match &self.encryption_key {
            Some(s) => (derive_key(s.as_str()), None),
            None => {
                let text = base64_encode(fresh.as_slice());
                let key = derive_key(text.as_str());
                let updated = Config {
                    verbose: self.verbose,
                    theme: self.theme.clone(),
                    max_items: self.max_items,
                    hotkey: HotkeyConfig {
                        ctrl: self.hotkey.ctrl,
                        alt: self.hotkey.alt,
                        shift: self.hotkey.shift,
                        key: self.hotkey.key.clone(),
                    },
                    encryption_enabled: self.encryption_enabled,
                    encryption_key: Some(text),
                    autostart_enabled: self.autostart_enabled,
                };
                (key, Some(updated))
            },
        }
    }

    /// [`Config::ensure_key`] with freshly drawn random bytes, which are
    /// drawn only when the configuration has no key text. `None` only when
    /// they were needed and the random source failed.
    pub fn get_or_create_encryption_key(&self) -> (r: Option<([u8; 32], Option<Config>)>)
        ensures
            self.encryption_key is Some ==> r is Some,
            r is Some ==> exists|fresh: Seq<u8>|
                fresh.len() == 32 && #[trigger] self.key_outcome(fresh, r->0),
    {
        match &self.encryption_key {
            Some(_) => {
                let unused = [0u8; 32];
                let got = self.ensure_key(&unused);
                let out = Some(got);
                assert(exists|fresh: Seq<u8>| fresh.len() == 32 && #[trigger] self.key_outcome(fresh, out->0)) by {
                    assert(self.key_outcome(unused@, out->0));
                }
                out
            },
            None => match random_bytes() {
                Some(fresh) => {
                    let got = self.ensure_key(&fresh);
                    let out = Some(got);
                    assert(exists|f: Seq<u8>| f.len() == 32 && #[trigger] self.key_outcome(f, out->0)) by {
                        assert(self.key_outcome(fresh@, out->0));
                    }
                    out
                },
                None => None,
            },
        }
    }
}

} // verus!
