//! Static configuration consumed by the coordination core, and the startup
//! validation of the shared token.

use vstd::prelude::*;
use vstd::utf8::encode_utf8;

verus! {

/// A machine this overlay may power on: a display name and its MAC address.
#[derive(Clone)]
pub struct ConfiguredHost {
    pub name: String,
    pub mac_address: MacAddress,
}

/// A six-byte hardware address.
#[derive(Clone, Copy)]
pub struct MacAddress {
    pub bytes: [u8; 6],
}

impl MacAddress {
    /// Whether two addresses are byte-for-byte the same.
    pub fn eq_mac(&self, other: &MacAddress) -> (r: bool)
        ensures
            r == (self.bytes@ == other.bytes@),
    {
        let mut i: usize = 0;
        while i < 6
            invariant
                i <= 6,
                forall|j: int| 0 <= j < i ==> self.bytes@[j] == other.bytes@[j],
            decreases 6 - i,
        {
            if self.bytes[i] != other.bytes[i] {
                return false;
            }
            i += 1;
        }
        proof {
            assert(self.bytes@ =~= other.bytes@);
        }
        true
    }
}

/// Process configuration: where to listen, the pre-shared token, the wake
/// targets, and the occupation threshold in whole percent.
pub struct AppConfig {
    pub host_ip: String,
    pub port: String,
    pub token: String,
    pub hosts: Vec<ConfiguredHost>,
    pub occupation_level_percentage: u8,
}

impl Default for AppConfig {
    /// Listens everywhere on port 8080 with no token, no hosts, and an 80%
    /// occupation threshold.
    fn default() -> (r: Self)
        ensures
            r.host_ip@ == "0.0.0.0"@,
            r.port@ == "8080"@,
            r.token@ == Seq::<char>::empty(),
            r.hosts@ == Seq::<ConfiguredHost>::empty(),
            r.occupation_level_percentage == 80,
    {
        AppConfig {
            host_ip: "0.0.0.0".to_owned(),
            port: "8080".to_owned(),
            token: String::new(),
            hosts: Vec::new(),
            occupation_level_percentage: 80,
        }
    }
}

/// Why a configuration was refused at startup.
#[derive(Clone, Copy, PartialEq, Eq, Structural, Debug)]
pub enum ConfigError {
    /// The shared token is missing or empty.
    EmptyToken,
    /// The shared token is shorter than the 32 bytes the design demands.
    TokenTooShort,
}

impl ConfigError {
    /// The startup message for this refusal.
    pub fn message(&self) -> (r: &'static str)
        ensures
            *self is EmptyToken ==> r@ == "The token seems to be empty. Please make sure to configure a secure token!"@,
            *self is TokenTooShort ==> r@ == "The token is too short, it must have at least 32 chars!"@,
    {
        match self {
            ConfigError::EmptyToken => "The token seems to be empty. Please make sure to configure a secure token!",
            ConfigError::TokenTooShort => "The token is too short, it must have at least 32 chars!",
        }
    }
}

/// Startup gate on the shared token: empty tokens and tokens under 32 bytes
/// are fatal; everything else about the configuration is accepted as given.
pub fn validate_config(config: &AppConfig) -> (r: Result<(), ConfigError>)
    ensures
        r is Ok <==> encode_utf8(config.token@).len() >= 32,
        r == Err::<(), ConfigError>(ConfigError::EmptyToken) <==> config.token@.len() == 0,
        r == Err::<(), ConfigError>(ConfigError::TokenTooShort) <==> (config.token@.len() > 0
            && encode_utf8(config.token@).len() < 32),
{
    if config.token.as_str().is_empty() {
        proof {
            lemma_encode_utf8_empty(config.token@);
        }
        return Err(ConfigError::EmptyToken);
    }
    if config.token.as_str().as_bytes().len() < 32 {
        return Err(ConfigError::TokenTooShort);
    }
    Ok(())
}

/// A character sequence of length zero encodes to zero bytes.
proof fn lemma_encode_utf8_empty(s: Seq<char>)
    requires
        s.len() == 0,
    ensures
        encode_utf8(s).len() == 0,
{
    assert(encode_utf8(s) =~= Seq::<u8>::empty());
}

} // verus!
