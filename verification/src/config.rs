//! The settings that the service is started with.

use crate::client::{plain_root_secret, ClientSecret};
use crate::federation::{invite_code_federation, InviteCode};
use fedimint_client::derivable_secret::DerivableSecret;
use std::path::PathBuf;
use vstd::prelude::*;
use vstd::string::*;
use vstd::utf8::{encode_utf8, is_ascii_chars_encode_utf8};

verus! {

/// The port that the service listens on where none is set.
pub const DEFAULT_PORT: u16 = 3000;

/// The number of bytes of the secret that the service is started with.
pub const SECRET_LEN: usize = 64;

/// Why settings are not accepted.
#[derive(Clone, Copy, Debug, PartialEq, Eq, Structural)]
pub enum ConfigError {
    /// The invite code is not one.
    InvalidInviteCode,
    /// The port is not a number from 0 to 65535.
    InvalidPort,
    /// The secret is not 64 bytes long.
    InvalidSecret,
}

/// The settings of the service.
pub struct Config {
    pub fm_db_path: PathBuf,
    pub invite_code: InviteCode,
    pub host: String,
    pub port: u16,
    pub password: String,
    pub root_secret: DerivableSecret,
}

/// Whether `c` is a decimal digit.
pub open spec fn is_decimal_digit(c: char) -> bool {
    '0' <= c <= '9'
}

/// The number that a sequence of decimal digits stands for.
pub open spec fn decimal_value(digits: Seq<char>) -> nat
    decreases digits.len(),
{
    if digits.len() == 0 {
        0
    } else {
        decimal_value(digits.drop_last()) * 10 + (digits.last() as u32 - '0' as u32) as nat
    }
}

/// The digits of a number's text: the text without the plus sign that may
/// stand before them.
pub open spec fn digits_of(text: Seq<char>) -> Seq<char> {
    if text.len() > 0 && text[0] == '+' {
        text.subrange(1, text.len() as int)
    } else {
        text
    }
}

/// The port that a text stands for: the text is decimal digits, at least
/// one, with or without a plus sign before them, and the number is no
/// more than 65535.
pub open spec fn parse_port(text: Seq<char>) -> Option<u16> {
    let digits = digits_of(text);
    if digits.len() > 0 && (forall|i: int| 0 <= i < digits.len() ==> is_decimal_digit(
        #[trigger] digits[i],
    )) && decimal_value(digits) <= u16::MAX {
        Some(decimal_value(digits) as u16)
    } else {
        None
    }
}

/// The port of the service: the one that `text` stands for, or 3000 where
/// none is set.
pub open spec fn port_of(text: Option<Seq<char>>) -> Option<u16> {
    match text {
        Some(text) => parse_port(text),
        None => Some(DEFAULT_PORT),
    }
}

/// The first digits of a number stand for no more than all of them.
proof fn lemma_more_digits_are_more(digits: Seq<char>, n: int)
    requires
        0 <= n <= digits.len(),
    ensures
        decimal_value(digits.subrange(0, n)) <= decimal_value(digits),
    decreases digits.len(),
{
    if n == digits.len() {
        assert(digits.subrange(0, n) =~= digits);
    } else {
        lemma_more_digits_are_more(digits.drop_last(), n);
        assert(digits.drop_last().subrange(0, n) =~= digits.subrange(0, n));
    }
}

/// Reads a port from its text.
pub fn read_port(text: &str) -> (r: Option<u16>)
    ensures
        r == parse_port(text@),
{
    let ghost digits = digits_of(text@);
    if !text.is_ascii() {
        proof {
            let i = choose|i: int|
                0 <= i < text@.len() && !('\0' <= #[trigger] text@[i] <= '\u{7f}');
            if text@[0] == '+' {
                assert(digits[i - 1] == text@[i]);
                assert(!is_decimal_digit(digits[i - 1]));
            } else {
                assert(!is_decimal_digit(digits[i]));
            }
        }
        return None;
    }
    let bytes = text.as_bytes();
    proof {
        is_ascii_chars_encode_utf8(text@);
    }
    let n = bytes.len();
    let start: usize = if n > 0 && bytes[0] == 43 {
        1
    } else {
        0
    };
    assert(digits =~= text@.subrange(start as int, n as int));
    if start == n {
        return None;
    }
    let mut value: u32 = 0;
    let mut i: usize = start;
    assert(digits.subrange(0, 0) =~= Seq::<char>::empty());
    while i < n
        invariant
            start <= i <= n,
            n == text@.len(),
            n == bytes@.len(),
            forall|j: int| 0 <= j < n ==> (#[trigger] bytes@[j]) as char == text@[j],
            digits == digits_of(text@),
            digits == text@.subrange(start as int, n as int),
            value == decimal_value(digits.subrange(0, i - start)),
            value <= u16::MAX,
            forall|j: int| 0 <= j < i - start ==> is_decimal_digit(#[trigger] digits[j]),
        decreases n - i,
    {
        let code = bytes[i];
        assert(code as char == digits[i - start]);
        if code < 48 || code > 57 {
            assert(!is_decimal_digit(digits[i - start]));
            return None;
        }
        proof {
            let longer = digits.subrange(0, i - start + 1);
            assert(longer.drop_last() =~= digits.subrange(0, i - start));
            assert(longer.last() == code as char);
            lemma_more_digits_are_more(digits, i - start + 1);
        }
        value = value * 10 + (code - 48) as u32;
        assert(value == decimal_value(digits.subrange(0, i - start + 1)));
        if value > 65535 {
            return None;
        }
        i += 1;
    }
    assert(digits.subrange(0, i - start) =~= digits);
    Some(value as u16)
}

/// The secret that is the given 64 bytes.
fn secret_of(bytes: &[u8]) -> (key: ClientSecret)
    requires
        bytes@.len() == 64,
    ensures
        key.0@ == bytes@,
{
    let mut key = [0u8; 64];
    let mut i: usize = 0;
    while i < 64
        invariant
            i <= 64,
            bytes@.len() == 64,
            forall|j: int| 0 <= j < i ==> key@[j] == bytes@[j],
        decreases 64 - i,
    {
        key[i] = bytes[i];
        i += 1;
    }
    assert(key@ =~= bytes@);
    ClientSecret(key)
}

/// The 64 bytes of the secret that the service is started with: `None`
/// unless its text is 64 bytes long.
pub fn read_secret(secret: &str) -> (r: Option<ClientSecret>)
    ensures
        r is Some <==> encode_utf8(secret@).len() == 64,
        r matches Some(key) ==> key.0@ == encode_utf8(secret@),
{
    let bytes = secret.as_bytes();
    if bytes.len() == SECRET_LEN {
        Some(secret_of(bytes))
    } else {
        None
    }
}

/// The root secret of the service, derived from the 64 bytes of `secret`.
pub fn create_root_secret(secret: String) -> (root: DerivableSecret)
    requires
        encode_utf8(secret@).len() == 64,
    ensures
        root == plain_root_secret(encode_utf8(secret@)),
{
    secret_of(secret.as_str().as_bytes()).to_root_secret()
}

/// What the settings are made from, as a text each; the port may be unset.
pub struct ConfigText {
    pub invite_code: Seq<char>,
    pub port: Option<Seq<char>>,
    pub secret: Seq<char>,
}

/// Why the settings are not accepted, if they are not: the invite code is
/// looked at first, then the port, then the secret.
pub open spec fn config_error(text: ConfigText) -> Option<ConfigError> {
    if invite_code_federation(text.invite_code) is None {
        Some(ConfigError::InvalidInviteCode)
    } else if port_of(text.port) is None {
        Some(ConfigError::InvalidPort)
    } else if encode_utf8(text.secret).len() != 64 {
        Some(ConfigError::InvalidSecret)
    } else {
        None
    }
}

impl Config {
    /// The settings of the service, from the values that its environment
    /// sets: the invite code as its text, the port as a text, or none where
    /// it is not set, and the secret as a text of 64 bytes.
    pub fn from_env(
        fm_db_path: PathBuf,
        invite_code: String,
        host: String,
        port: Option<String>,
        password: String,
        secret: String,
    ) -> (r: Result<Config, ConfigError>)
        ensures
            match r {
                Ok(config) => {
                    &&& config_error(
                        ConfigText {
                            invite_code: invite_code@,
                            port: match port {
                                Some(text) => Some(text@),
                                None => None,
                            },
                            secret: secret@,
                        },
                    ) is None
                    &&& config.invite_code@.code == invite_code@
                    &&& invite_code_federation(invite_code@) == Some(
                        config.invite_code@.federation_id,
                    )
                    &&& port_of(
                        match port {
                            Some(text) => Some(text@),
                            None => None,
                        },
                    ) == Some(config.port)
                    &&& config.root_secret == plain_root_secret(encode_utf8(secret@))
                    &&& config.fm_db_path == fm_db_path
                    &&& config.host == host
                    &&& config.password == password
                },
                Err(error) => config_error(
                    ConfigText {
                        invite_code: invite_code@,
                        port: match port {
                            Some(text) => Some(text@),
                            None => None,
                        },
                        secret: secret@,
                    },
                ) == Some(error),
            },
    {
        let invite_code = match InviteCode::from_str(invite_code.as_str()) {
            Some(invite_code) => invite_code,
            None => {
                return Err(ConfigError::InvalidInviteCode);
            },
        };
        let port = match port {
            Some(text) => match read_port(text.as_str()) {
                Some(port) => port,
                None => {
                    return Err(ConfigError::InvalidPort);
                },
            },
            None => DEFAULT_PORT,
        };
        let root_secret = match read_secret(secret.as_str()) {
            Some(key) => key.to_root_secret(),
            None => {
                return Err(ConfigError::InvalidSecret);
            },
        };
        Ok(Config { fm_db_path, invite_code, host, port, password, root_secret })
    }
}

} // verus!
