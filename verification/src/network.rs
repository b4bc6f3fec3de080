use vstd::prelude::*;
use vstd::string::StrSliceExecFns;
use vstd::string::StringSliceAdditionalSpecFns;

verus! {

/// The peer-to-peer networks a node can belong to. Only nodes with matching
/// byte values can connect, so the values are fixed once released.
#[derive(Clone, Copy, Debug, PartialEq, Eq, Structural)]
pub enum Network {
    MainNet,
    TestNet,
    LocalNet,
}

/// Error returned when a value cannot be read as a network name or byte.
#[derive(Debug)]
pub struct ConfigurationError {
    pub field: String,
    pub value: Option<String>,
}

impl ConfigurationError {
    pub fn new(field: &str, value: Option<String>) -> (r: Self)
        ensures
            r.field@ == field@,
            r.value == value,
    {
        ConfigurationError { field: field.to_owned(), value }
    }
}

impl Network {
    /// The wire byte that identifies this network.
    pub open spec fn spec_byte(self) -> u8 {
        match self {
            Network::MainNet => 0xaa,
            Network::TestNet => 0xbb,
            Network::LocalNet => 0xcc,
        }
    }

    /// The lower-case configuration key naming this network.
    pub open spec fn spec_key(self) -> Seq<char> {
        match self {
            Network::MainNet => "mainnet"@,
            Network::TestNet => "testnet"@,
            Network::LocalNet => "localnet"@,
        }
    }

    /// The bytes of the configuration key naming this network.
    pub open spec fn spec_key_bytes(self) -> Seq<u8> {
        match self {
            Network::MainNet => seq![109u8, 97, 105, 110, 110, 101, 116],
            Network::TestNet => seq![116, 101, 115, 116, 110, 101, 116],
            Network::LocalNet => seq![108, 111, 99, 97, 108, 110, 101, 116],
        }
    }

    pub fn as_byte(self) -> (b: u8)
        ensures
            b == self.spec_byte(),
    {
        match self {
            Network::MainNet => 0xaa,
            Network::TestNet => 0xbb,
            Network::LocalNet => 0xcc,
        }
    }

    pub fn as_key_str(self) -> (s: &'static str)
        ensures
            s@ == self.spec_key(),
    {
        match self {
            Network::MainNet => "mainnet",
            Network::TestNet => "testnet",
            Network::LocalNet => "localnet",
        }
    }

    /// Records `network` in an unset cell, as process-wide configuration is
    /// set exactly once at startup; a second call leaves the cell untouched
    /// and hands the rejected value back.
    pub fn set_current(current: &mut Option<Network>, network: Network) -> (r: Result<
        (),
        Network,
    >)
        ensures
            old(current).is_none() ==> *final(current) == Some(network) && r == Ok::<
                (),
                Network,
            >(()),
            old(current).is_some() ==> *final(current) == *old(current) && r == Err::<
                (),
                Network,
            >(network),
    {
        if current.is_some() {
            Err(network)
        } else {
            *current = Some(network);
            Ok(())
        }
    }

    /// Parses a network name, ignoring ASCII case; any other name is
    /// rejected, carrying the offending value back in the error.
    pub fn from_str(value: &str) -> (r: Result<Network, ConfigurationError>)
        ensures
            r == Ok::<Network, ConfigurationError>(Network::MainNet) <==> lower_bytes(
                value.spec_bytes(),
            ) == Network::MainNet.spec_key_bytes(),
            r == Ok::<Network, ConfigurationError>(Network::TestNet) <==> lower_bytes(
                value.spec_bytes(),
            ) == Network::TestNet.spec_key_bytes(),
            r == Ok::<Network, ConfigurationError>(Network::LocalNet) <==> lower_bytes(
                value.spec_bytes(),
            ) == Network::LocalNet.spec_key_bytes(),
            r matches Err(e) ==> e.value matches Some(v) && v@ == value@,
    {
        let bytes = value.as_bytes_vec();
        if lower_matches(&bytes, Network::MainNet) {
            Ok(Network::MainNet)
        } else if lower_matches(&bytes, Network::TestNet) {
            Ok(Network::TestNet)
        } else if lower_matches(&bytes, Network::LocalNet) {
            Ok(Network::LocalNet)
        } else {
            Err(ConfigurationError::new("network", Some(value.to_owned())))
        }
    }

    /// Reads a network back from its wire byte; the inverse of `as_byte`.
    pub fn try_from(v: u8) -> (r: Result<Network, ConfigurationError>)
        ensures
            v == Network::MainNet.spec_byte() ==> r == Ok::<Network, ConfigurationError>(
                Network::MainNet,
            ),
            v == Network::TestNet.spec_byte() ==> r == Ok::<Network, ConfigurationError>(
                Network::TestNet,
            ),
            v == Network::LocalNet.spec_byte() ==> r == Ok::<Network, ConfigurationError>(
                Network::LocalNet,
            ),
            (v != Network::MainNet.spec_byte() && v != Network::TestNet.spec_byte() && v
                != Network::LocalNet.spec_byte()) ==> r.is_err(),
    {
        if v == 0xaa {
            Ok(Network::MainNet)
        } else if v == 0xbb {
            Ok(Network::TestNet)
        } else if v == 0xcc {
            Ok(Network::LocalNet)
        } else {
            Err(ConfigurationError::new("network", None))
        }
    }

    /// Resolves the effective network: an explicitly configured one wins,
    /// then a parseable user setting, then the default.
    pub fn get_current_or_user_setting_or_default(
        current: &Option<Network>,
        user_setting: Option<&str>,
    ) -> (r: Network)
        ensures
            (*current) matches Some(n) ==> r == n,
            current.is_none() ==> (match user_setting {
                Some(s) => {
                    let lb = lower_bytes(s.spec_bytes());
                    if lb == Network::MainNet.spec_key_bytes() {
                        r == Network::MainNet
                    } else if lb == Network::TestNet.spec_key_bytes() {
                        r == Network::TestNet
                    } else if lb == Network::LocalNet.spec_key_bytes() {
                        r == Network::LocalNet
                    } else {
                        r == Network::TestNet
                    }
                },
                None => r == Network::TestNet,
            }),
    {
        match current {
            Some(n) => *n,
            None => match user_setting {
                Some(s) => match Network::from_str(s) {
                    Ok(n) => n,
                    Err(_) => Network::default(),
                },
                None => Network::default(),
            },
        }
    }
}

/// The default network for all applications.
impl Default for Network {
    fn default() -> (r: Self)
        ensures
            r == Network::TestNet,
    {
        Network::TestNet
    }
}

/// ASCII case folding of one byte.
pub open spec fn lower_byte(b: u8) -> u8 {
    if 65 <= b && b <= 90 {
        (b + 32) as u8
    } else {
        b
    }
}

/// ASCII case folding of a byte string.
pub open spec fn lower_bytes(s: Seq<u8>) -> Seq<u8> {
    s.map_values(|b: u8| lower_byte(b))
}

fn lower_byte_exec(b: u8) -> (r: u8)
    ensures
        r == lower_byte(b),
{
    if 65 <= b && b <= 90 {
        b + 32
    } else {
        b
    }
}

/// Whether `bytes`, folded to lower case, spells `network`'s key.
fn lower_matches(bytes: &Vec<u8>, network: Network) -> (r: bool)
    ensures
        r <==> lower_bytes(bytes@) == network.spec_key_bytes(),
{
    let key: Vec<u8> = key_vec(network);
    if bytes.len() != key.len() {
        proof {
            assert(lower_bytes(bytes@).len() == bytes@.len());
        }
        return false;
    }
    let mut i: usize = 0;
    while i < bytes.len()
        invariant
            bytes@.len() == key@.len(),
            key@ == network.spec_key_bytes(),
            i <= bytes@.len(),
            forall|j: int| 0 <= j < i ==> lower_byte(bytes@[j]) == key@[j],
        decreases bytes@.len() - i,
    {
        let c = lower_byte_exec(bytes[i]);
        if c != key[i] {
            proof {
                assert(lower_bytes(bytes@)[i as int] != network.spec_key_bytes()[i as int]);
            }
            return false;
        }
        i += 1;
    }
    proof {
        assert(lower_bytes(bytes@) =~= network.spec_key_bytes());
    }
    true
}

/// The key naming `network`, as owned bytes.
fn key_vec(network: Network) -> (v: Vec<u8>)
    ensures
        v@ == network.spec_key_bytes(),
{
    let mut v: Vec<u8> = Vec::new();
    match network {
        Network::MainNet => {
            v.push(109u8);
            v.push(97);
            v.push(105);
            v.push(110);
            v.push(110);
            v.push(101);
            v.push(116);
        },
        Network::TestNet => {
            v.push(116);
            v.push(101);
            v.push(115);
            v.push(116);
            v.push(110);
            v.push(101);
            v.push(116);
        },
        Network::LocalNet => {
            v.push(108);
            v.push(111);
            v.push(99);
            v.push(97);
            v.push(108);
            v.push(110);
            v.push(101);
            v.push(116);
        },
    }
    proof {
        assert(v@ =~= network.spec_key_bytes());
    }
    v
}

} // verus!
