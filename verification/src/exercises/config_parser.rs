//! Reading a `key=value` configuration string into a typed struct.

use vstd::prelude::*;
use crate::text::{self, all_digits, dec_value, first_index_of, split_seq};

verus! {

/// A parsed configuration.
#[derive(Debug)]
pub struct Config {
    /// The host name.
    pub host: String,
    /// The port, 0 to 65535.
    pub port: u16,
    /// The timeout in seconds.
    pub timeout: u32,
}

/// Why a configuration string was rejected.
#[derive(Debug, Clone, Copy)]
pub enum ConfigError {
    /// The port value is not a number in range.
    InvalidPort,
    /// The timeout value is not a number in range.
    InvalidTimeout,
    /// A required key never appears.
    MissingField(&'static str),
}

/// The key and value of one `key=value` piece, split at the first `=`.
pub open spec fn kv_of(piece: Seq<char>) -> Option<(Seq<char>, Seq<char>)> {
    match first_index_of(piece, '=') {
        None => None,
        Some(i) => Some((piece.subrange(0, i), piece.skip(i + 1))),
    }
}

/// The last value bound to the key among the pieces, if any.
pub open spec fn lookup_key(pieces: Seq<Seq<char>>, key: Seq<char>) -> Option<Seq<char>>
    decreases pieces.len(),
{
    if pieces.len() == 0 {
        None
    } else {
        match kv_of(pieces.last()) {
            Some(kv) => if kv.0 == key {
                Some(kv.1)
            } else {
                lookup_key(pieces.drop_last(), key)
            },
            None => lookup_key(pieces.drop_last(), key),
        }
    }
}

/// The pieces a configuration string decomposes into.
pub open spec fn config_pieces(input: Seq<char>) -> Seq<Seq<char>> {
    split_seq(input, ',')
}

/// A value that reads as a decimal number within the type's range.
pub open spec fn valid_port_value(v: Seq<char>) -> bool {
    v.len() > 0 && all_digits(v) && dec_value(v) <= u16::MAX
}

/// A value that reads as a decimal number within the type's range.
pub open spec fn valid_timeout_value(v: Seq<char>) -> bool {
    v.len() > 0 && all_digits(v) && dec_value(v) <= u32::MAX
}

/// Parses `host=...,port=...,timeout=...`.  Pieces are split on commas,
/// keys and values around the first `=`; the last binding of a repeated key
/// wins.  Success requires all three keys, a port that fits a `u16` and a
/// timeout that fits a `u32`.
pub fn parse_config(input: &str) -> (r: Result<Config, ConfigError>)
    ensures
        ({
            let pieces = config_pieces(input@);
            match r {
                Ok(c) => {
                    &&& lookup_key(pieces, "host"@) matches Some(h) && c.host@ == h
                    &&& lookup_key(pieces, "port"@) matches Some(p) && valid_port_value(p)
                        && c.port == dec_value(p)
                    &&& lookup_key(pieces, "timeout"@) matches Some(t) && valid_timeout_value(t)
                        && c.timeout == dec_value(t)
                },
                Err(e) => match e {
                    ConfigError::MissingField(f) => (f@ == "host"@ && lookup_key(pieces, "host"@)
                        is None) || (f@ == "port"@ && lookup_key(pieces, "port"@) is None) || (f@
                        == "timeout"@ && lookup_key(pieces, "timeout"@) is None),
                    ConfigError::InvalidPort => lookup_key(pieces, "port"@) matches Some(p)
                        && !valid_port_value(p),
                    ConfigError::InvalidTimeout => lookup_key(pieces, "timeout"@) matches Some(t)
                        && !valid_timeout_value(t),
                },
            }
        }),
{
    let pieces = text::split_char(input, ',');
    let host_raw = find_value(&pieces, "host");
    let port_raw = find_value(&pieces, "port");
    let timeout_raw = find_value(&pieces, "timeout");
    let host = match host_raw {
        Some(h) => h,
        None => {
            return Err(ConfigError::MissingField("host"));
        },
    };
    let port_s = match port_raw {
        Some(p) => p,
        None => {
            return Err(ConfigError::MissingField("port"));
        },
    };
    let timeout_s = match timeout_raw {
        Some(t) => t,
        None => {
            return Err(ConfigError::MissingField("timeout"));
        },
    };
    let port = match text::parse_u16(port_s.as_str()) {
        Some(p) => p,
        None => {
            return Err(ConfigError::InvalidPort);
        },
    };
    let timeout = match text::parse_u32(timeout_s.as_str()) {
        Some(t) => t,
        None => {
            return Err(ConfigError::InvalidTimeout);
        },
    };
    Ok(Config { host, port, timeout })
}

/// Scans the pieces for the key's last binding.
fn find_value(pieces: &Vec<String>, key: &str) -> (r: Option<String>)
    ensures
        match r {
            Some(v) => lookup_key(pieces@.map_values(|s: String| s@), key@) matches Some(sv) && v@
                == sv,
            None => lookup_key(pieces@.map_values(|s: String| s@), key@) is None,
        },
{
    let ghost pv = pieces@.map_values(|s: String| s@);
    let n = pieces.len();
    let mut j: usize = n;
    proof {
        assert(pv.subrange(0, n as int) =~= pv);
    }
    while j > 0
        invariant
            0 <= j <= n,
            n == pieces@.len(),
            pv == pieces@.map_values(|s: String| s@),
            pv.len() == n,
            lookup_key(pv, key@) == lookup_key(pv.subrange(0, j as int), key@),
        decreases j,
    {
        let ghost upto = pv.subrange(0, j as int);
        let ghost rest = pv.subrange(0, j - 1);
        proof {
            assert(upto.drop_last() =~= rest);
            assert(upto.last() == pv[j - 1]);
        }
        let piece = &pieces[j - 1];
        let pn = piece.as_str().unicode_len();
        match text::find_char(piece.as_str(), '=') {
            Some(eq) => {
                proof {
                    text::lemma_first_index_is(piece@, '=', eq as int);
                }
                let k = text::substring(piece.as_str(), 0, eq);
                let v = text::substring(piece.as_str(), eq + 1, pn);
                proof {
                    assert(k@ =~= piece@.subrange(0, eq as int));
                    assert(v@ =~= piece@.skip(eq + 1));
                }
                if text::str_eq(k.as_str(), key) {
                    return Some(v);
                }
            },
            None => {
                proof {
                    text::lemma_first_index_none(piece@, '=');
                }
            },
        }
        j -= 1;
    }
    proof {
        assert(pv.subrange(0, 0) =~= Seq::<Seq<char>>::empty());
    }
    None
}

} // verus!
