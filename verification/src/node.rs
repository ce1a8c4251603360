//! The validator node's configuration: the values of its environment
//! variables, checked in order, and the block from which it reads the
//! sequencer's logs.

use vstd::prelude::*;
use vstd::string::*;
use vstd::utf8::encode_utf8;
use crate::provider::opt_view;

verus! {

/// Why a decimal number could not be read, as `u64::from_str` reports it.
#[derive(Debug, Clone, Copy, PartialEq, Eq, Structural)]
pub enum IntParseError {
    /// There is nothing to read.
    Empty,
    /// A byte that is not a decimal digit, or a lone `+`.
    InvalidDigit,
    /// The number does not fit in a `u64`.
    PosOverflow,
}

impl IntParseError {
    /// The text that describes the error.
    pub open spec fn message(self) -> Seq<char> {
        match self {
            IntParseError::Empty => "cannot parse integer from empty string"@,
            IntParseError::InvalidDigit => "invalid digit found in string"@,
            IntParseError::PosOverflow => "number too large to fit in target type"@,
        }
    }

    /// The text that describes the error.
    pub fn to_string(&self) -> (s: String)
        ensures
            s@ == self.message(),
    {
        match self {
            IntParseError::Empty => String::from_str("cannot parse integer from empty string"),
            IntParseError::InvalidDigit => String::from_str("invalid digit found in string"),
            IntParseError::PosOverflow => String::from_str("number too large to fit in target type"),
        }
    }
}

/// Whether `b` is the ASCII code of a decimal digit.
pub open spec fn is_ascii_digit(b: u8) -> bool {
    48 <= b <= 57
}

/// Reading the first `n` bytes of `d` as decimal digits, from the left: the
/// first byte that is not a digit gives `InvalidDigit`, and the first digit
/// after which the number no longer fits in a `u64` gives `PosOverflow`.
pub open spec fn digits_scan(d: Seq<u8>, n: nat) -> Result<nat, IntParseError>
    decreases n,
{
    if n == 0 {
        Ok(0)
    } else {
        match digits_scan(d, (n - 1) as nat) {
            Err(e) => Err(e),
            Ok(v) => if !is_ascii_digit(d[n - 1]) {
                Err(IntParseError::InvalidDigit)
            } else if v * 10 + (d[n - 1] - 48) > u64::MAX {
                Err(IntParseError::PosOverflow)
            } else {
                Ok((v * 10 + (d[n - 1] - 48)) as nat)
            },
        }
    }
}

/// What `u64::from_str` gives for the bytes `s`: an optional `+` followed by
/// at least one decimal digit, the number fitting in a `u64`.
pub open spec fn spec_parse_u64(s: Seq<u8>) -> Result<u64, IntParseError> {
    if s.len() == 0 {
        Err(IntParseError::Empty)
    } else {
        let d = if s[0] == 43u8 { s.drop_first() } else { s };
        if d.len() == 0 {
            Err(IntParseError::InvalidDigit)
        } else {
            match digits_scan(d, d.len()) {
                Ok(v) => Ok(v as u64),
                Err(e) => Err(e),
            }
        }
    }
}

proof fn lemma_digits_scan_error_stays(d: Seq<u8>, m: nat, n: nat)
    requires
        m <= n,
        digits_scan(d, m) is Err,
    ensures
        digits_scan(d, n) == digits_scan(d, m),
    decreases n - m,
{
    if m < n {
        lemma_digits_scan_error_stays(d, m, (n - 1) as nat);
    }
}

/// Reads a decimal `u64`, as [`spec_parse_u64`] describes.
pub fn parse_u64(s: &str) -> (res: Result<u64, IntParseError>)
    ensures
        res == spec_parse_u64(encode_utf8(s@)),
{
    let b = s.as_bytes();
    if b.len() == 0 {
        return Err(IntParseError::Empty);
    }
    let start: usize = if b[0] == 43u8 { 1 } else { 0 };
    if b.len() == start {
        return Err(IntParseError::InvalidDigit);
    }
    let ghost d = b@.skip(start as int);
    assert(d =~= (if b@[0] == 43u8 { b@.drop_first() } else { b@ }));
    let mut v: u64 = 0;
    let mut i: usize = start;
    while i < b.len()
        invariant
            b@ == encode_utf8(s@),
            b@.len() > start,
            start == (if b@[0] == 43u8 { 1usize } else { 0usize }),
            d == (if b@[0] == 43u8 { b@.drop_first() } else { b@ }),
            start <= i <= b@.len(),
            d == b@.skip(start as int),
            d.len() == b@.len() - start,
            digits_scan(d, (i - start) as nat) == Ok::<nat, IntParseError>(v as nat),
        decreases b@.len() - i,
    {
        let c = b[i];
        assert(d[i - start] == c);
        if c < 48u8 || c > 57u8 {
            assert(digits_scan(d, (i - start + 1) as nat) is Err);
            proof {
                lemma_digits_scan_error_stays(d, (i - start + 1) as nat, d.len());
            }
            return Err(IntParseError::InvalidDigit);
        }
        let w: u128 = (v as u128) * 10 + ((c - 48u8) as u128);
        if w > 0xffff_ffff_ffff_ffffu128 {
            assert(digits_scan(d, (i - start + 1) as nat) is Err);
            proof {
                lemma_digits_scan_error_stays(d, (i - start + 1) as nat, d.len());
            }
            return Err(IntParseError::PosOverflow);
        }
        v = w as u64;
        i = i + 1;
    }
    Ok(v)
}

/// The validator node's configuration.
pub struct Config {
    pub rpc_url: String,
    pub beacon_rpc_url: String,
    pub ws_url: String,
    pub start_block: u64,
    pub private_key: String,
}

/// Why the configuration could not be built: an environment variable is
/// not set (it is named), or `START_BLOCK` is not a decimal `u64`.
#[derive(Debug)]
pub enum ConfigError {
    MissingEnvVar(String),
    InvalidStartBlock(IntParseError),
}

/// A [`ConfigError`] as a mathematical value.
pub enum ConfigErrorView {
    MissingEnvVar(Seq<char>),
    InvalidStartBlock(IntParseError),
}

impl View for ConfigError {
    type V = ConfigErrorView;

    open spec fn view(&self) -> ConfigErrorView {
        match self {
            ConfigError::MissingEnvVar(k) => ConfigErrorView::MissingEnvVar(k@),
            ConfigError::InvalidStartBlock(e) => ConfigErrorView::InvalidStartBlock(*e),
        }
    }
}

impl ConfigErrorView {
    /// The text that describes the error. For a missing variable, the
    /// reason the environment gave follows it after `: `.
    pub open spec fn message(self) -> Seq<char> {
        match self {
            ConfigErrorView::MissingEnvVar(k) => "Error getting environment variable `"@ + k + "`"@,
            ConfigErrorView::InvalidStartBlock(e) => e.message(),
        }
    }
}

impl ConfigError {
    /// The text that describes the error, as [`ConfigErrorView::message`]
    /// gives it.
    pub fn to_string(&self) -> (s: String)
        ensures
            s@ == self@.message(),
    {
        match self {
            ConfigError::MissingEnvVar(k) => {
                let mut s = String::from_str("Error getting environment variable `");
                s.append(k.as_str());
                s.append("`");
                s
            },
            ConfigError::InvalidStartBlock(e) => e.to_string(),
        }
    }
}

/// What [`Config::build`] does: `PRIVATE_KEY`, `RPC_URL`, `BEACON_RPC_URL`,
/// `WS_URL` and `START_BLOCK` must be set, checked in that order, and
/// `START_BLOCK` must be a decimal `u64`. The result lists the RPC URL, the
/// beacon RPC URL, the websocket URL, the start block and the private key.
pub open spec fn spec_node_config(
    private_key: Option<Seq<char>>,
    rpc_url: Option<Seq<char>>,
    beacon_rpc_url: Option<Seq<char>>,
    ws_url: Option<Seq<char>>,
    start_block: Option<Seq<char>>,
) -> Result<(Seq<char>, Seq<char>, Seq<char>, u64, Seq<char>), ConfigErrorView> {
    if private_key is None {
        Err(ConfigErrorView::MissingEnvVar("PRIVATE_KEY"@))
    } else if rpc_url is None {
        Err(ConfigErrorView::MissingEnvVar("RPC_URL"@))
    } else if beacon_rpc_url is None {
        Err(ConfigErrorView::MissingEnvVar("BEACON_RPC_URL"@))
    } else if ws_url is None {
        Err(ConfigErrorView::MissingEnvVar("WS_URL"@))
    } else if start_block is None {
        Err(ConfigErrorView::MissingEnvVar("START_BLOCK"@))
    } else {
        match spec_parse_u64(encode_utf8(start_block.unwrap())) {
            Err(e) => Err(ConfigErrorView::InvalidStartBlock(e)),
            Ok(b) => Ok((rpc_url.unwrap(), beacon_rpc_url.unwrap(), ws_url.unwrap(), b, private_key.unwrap())),
        }
    }
}

impl Config {
    /// Builds the configuration from the values of the environment variables
    /// `PRIVATE_KEY`, `RPC_URL`, `BEACON_RPC_URL`, `WS_URL` and `START_BLOCK`
    /// (`None` where one is not set), as [`spec_node_config`] describes.
    pub fn build(
        private_key: Option<String>,
        rpc_url: Option<String>,
        beacon_rpc_url: Option<String>,
        ws_url: Option<String>,
        start_block: Option<String>,
    ) -> (res: Result<Config, ConfigError>)
        ensures
            ({
                let spec_res = spec_node_config(
                    opt_view(private_key),
                    opt_view(rpc_url),
                    opt_view(beacon_rpc_url),
                    opt_view(ws_url),
                    opt_view(start_block),
                );
                match res {
                    Ok(c) => spec_res == Ok::<(Seq<char>, Seq<char>, Seq<char>, u64, Seq<char>), ConfigErrorView>(
                        (c.rpc_url@, c.beacon_rpc_url@, c.ws_url@, c.start_block, c.private_key@),
                    ),
                    Err(e) => spec_res == Err::<(Seq<char>, Seq<char>, Seq<char>, u64, Seq<char>), ConfigErrorView>(e@),
                }
            }),
    {
        let private_key = match private_key {
            Some(v) => v,
            None => return Err(ConfigError::MissingEnvVar(String::from_str("PRIVATE_KEY"))),
        };
        let rpc_url = match rpc_url {
            Some(v) => v,
            None => return Err(ConfigError::MissingEnvVar(String::from_str("RPC_URL"))),
        };
        let beacon_rpc_url = match beacon_rpc_url {
            Some(v) => v,
            None => return Err(ConfigError::MissingEnvVar(String::from_str("BEACON_RPC_URL"))),
        };
        let ws_url = match ws_url {
            Some(v) => v,
            None => return Err(ConfigError::MissingEnvVar(String::from_str("WS_URL"))),
        };
        let start_block_text = match start_block {
            Some(v) => v,
            None => return Err(ConfigError::MissingEnvVar(String::from_str("START_BLOCK"))),
        };
        let start_block = match parse_u64(start_block_text.as_str()) {
            Ok(b) => b,
            Err(e) => return Err(ConfigError::InvalidStartBlock(e)),
        };
        Ok(Config { rpc_url, beacon_rpc_url, ws_url, start_block, private_key })
    }
}

} // verus!
