use rand::distr::{Alphanumeric, SampleString};
use rand::rng;
use vstd::prelude::*;

verus! {

/// True for the characters A-Z, a-z and 0-9.
pub open spec fn is_ascii_alphanumeric(c: char) -> bool {
    ('0' <= c && c <= '9') || ('A' <= c && c <= 'Z') || ('a' <= c && c <= 'z')
}

/// True for a replication id: 40 characters from A-Z, a-z and 0-9.
pub open spec fn is_replication_id(s: Seq<char>) -> bool {
    &&& s.len() == 40
    &&& forall|i: int| 0 <= i < s.len() ==> is_ascii_alphanumeric(#[trigger] s[i])
}

/// rand's `Alphanumeric.sample_string(&mut rand::rng(), len)`: a string of
/// `len` characters, each drawn at random from A-Z, a-z and 0-9. Which
/// characters come out is chance, so nothing more is claimed of them. (It
/// panics only if the thread's generator cannot be seeded by the system.)
#[verifier::external_body]
fn random_alphanumeric(len: usize) -> (s: String)
    ensures
        s@.len() == len,
        forall|i: int| 0 <= i < s@.len() ==> is_ascii_alphanumeric(#[trigger] s@[i]),
{
    Alphanumeric.sample_string(&mut rng(), len)
}

/// The address of the master that a replica follows.
#[derive(Debug, PartialEq, Clone)]
pub struct MasterConfig {
    pub host: String,
    pub port: u16,
}

/// The replication settings of a server.
pub struct ReplicationConfig {
    pub master: Option<MasterConfig>,
    pub replid: String,
    pub repl_offset: usize,
}

/// The replication role of a server.
#[derive(Debug, PartialEq, Eq, Structural, Clone, Copy)]
pub enum Role {
    Master,
    Replica,
}

/// What a server reports of its replication.
#[derive(Debug, PartialEq)]
pub struct ReplicationInfo {
    pub role: Role,
    pub replid: String,
    pub repl_offset: usize,
}

impl ReplicationConfig {
    /// The settings of a master: no master to follow, a fresh random
    /// replication id and offset 0.
    pub fn new_master() -> (config: Self)
        ensures
            config.master is None,
            is_replication_id(config.replid@),
            config.repl_offset == 0,
    {
        ReplicationConfig { master: None, replid: random_alphanumeric(40), repl_offset: 0 }
    }

    /// The settings of a replica of the master at `master_host`:`master_port`,
    /// with a fresh random replication id and offset 0.
    pub fn new_replica(master_host: String, master_port: u16) -> (config: Self)
        ensures
            config.master matches Some(m) && m.host@ == master_host@ && m.port == master_port,
            is_replication_id(config.replid@),
            config.repl_offset == 0,
    {
        ReplicationConfig {
            master: Some(MasterConfig { host: master_host, port: master_port }),
            replid: random_alphanumeric(40),
            repl_offset: 0,
        }
    }

    /// The role, id and offset of these settings: a replica when there is a
    /// master to follow, a master otherwise.
    pub fn info(&self) -> (info: ReplicationInfo)
        ensures
            info.role == (if self.master is Some {
                Role::Replica
            } else {
                Role::Master
            }),
            info.replid@ == self.replid@,
            info.repl_offset == self.repl_offset,
    {
        ReplicationInfo {
            role: match &self.master {
                Some(_) => Role::Replica,
                None => Role::Master,
            },
            replid: self.replid.clone(),
            repl_offset: self.repl_offset,
        }
    }
}

/// Why a "HOST PORT" master address was refused.
#[derive(Debug, PartialEq, Eq, Structural, Clone, Copy)]
pub enum ReplicaOfError {
    /// There is no space between host and port.
    MissingSeparator,
    /// The port is not a number from 0 to 65535.
    InvalidPort,
}

/// The position of the first space of `s` at or after `from`.
pub open spec fn first_space_from(s: Seq<char>, from: int) -> Option<int>
    decreases s.len() - from,
{
    if from < 0 || from >= s.len() {
        None
    } else if s[from] == ' ' {
        Some(from)
    } else {
        first_space_from(s, from + 1)
    }
}

/// True for the characters 0-9.
pub open spec fn is_ascii_digit(c: char) -> bool {
    '0' <= c && c <= '9'
}

/// The number that a string of decimal digits stands for.
pub open spec fn digits_value(s: Seq<char>) -> nat
    decreases s.len(),
{
    if s.len() == 0 {
        0
    } else {
        digits_value(s.drop_last()) * 10 + ((s.last() as int) - ('0' as int)) as nat
    }
}

/// True when every character of `s` is a digit.
pub open spec fn all_digits(s: Seq<char>) -> bool {
    forall|i: int| 0 <= i < s.len() ==> is_ascii_digit(#[trigger] s[i])
}

/// The text of a port without its optional leading "+".
pub open spec fn port_digits(s: Seq<char>) -> Seq<char> {
    if s.len() > 0 && s[0] == '+' {
        s.drop_first()
    } else {
        s
    }
}

/// The number that `s` names, read as an unsigned integer is read from
/// text: an optional "+", then one or more digits, for a value of at most `max`.
pub open spec fn parse_unsigned_spec(s: Seq<char>, max: u64) -> Option<u64> {
    let digits = port_digits(s);
    if digits.len() > 0 && all_digits(digits) && digits_value(digits) <= max {
        Some(digits_value(digits) as u64)
    } else {
        None
    }
}

/// The port that `s` names, read as a `u16` is read from text.
pub open spec fn parse_port_spec(s: Seq<char>) -> Option<u16> {
    match parse_unsigned_spec(s, 65535) {
        Some(v) => Some(v as u16),
        None => None,
    }
}

/// What a "HOST PORT" master address gives: the text before the first space
/// as host, and the text after it as port.
pub open spec fn replica_of_spec(s: Seq<char>) -> Result<(Seq<char>, u16), ReplicaOfError> {
    match first_space_from(s, 0) {
        None => Err(ReplicaOfError::MissingSeparator),
        Some(i) => match parse_port_spec(s.subrange(i + 1, s.len() as int)) {
            Some(port) => Ok((s.subrange(0, i), port)),
            None => Err(ReplicaOfError::InvalidPort),
        },
    }
}

/// Reads an unsigned number of at most `max` as an unsigned integer is read
/// from text.
pub fn parse_unsigned(text: &str, max: u64) -> (res: Option<u64>)
    ensures
        res == parse_unsigned_spec(text@, max),
{
    let n = text.unicode_len();
    let mut start: usize = 0;
    if n > 0 && text.get_char(0) == '+' {
        start = 1;
    }
    let ghost digits = port_digits(text@);
    assert(digits =~= text@.subrange(start as int, n as int));
    if start == n {
        return None;
    }
    let mut value: u128 = 0;
    let mut k: usize = start;
    while k < n
        invariant
            n == text@.len(),
            start <= k <= n,
            start < n,
            digits == port_digits(text@),
            digits =~= text@.subrange(start as int, n as int),
            forall|i: int| start <= i < k ==> is_ascii_digit(#[trigger] text@[i]),
            value == (if digits_value(text@.subrange(start as int, k as int)) > max {
                max + 1
            } else {
                digits_value(text@.subrange(start as int, k as int)) as int
            }),
        decreases n - k,
    {
        let c = text.get_char(k);
        if !(c >= '0' && c <= '9') {
            assert(digits[k - start] == c);
            assert(!is_ascii_digit(digits[k - start]));
            assert(!all_digits(digits));
            return None;
        }
        let d = ((c as u32) - ('0' as u32)) as u128;
        let ghost before = text@.subrange(start as int, k as int);
        let ghost after = text@.subrange(start as int, k + 1);
        assert(after.drop_last() =~= before);
        assert(after.last() == c);
        if value > max as u128 || value * 10 + d > max as u128 {
            value = max as u128 + 1;
        } else {
            value = value * 10 + d;
        }
        k = k + 1;
    }
    assert(text@.subrange(start as int, n as int) =~= digits);
    assert forall|i: int| 0 <= i < digits.len() implies is_ascii_digit(#[trigger] digits[i]) by {
        assert(digits[i] == text@[start + i]);
    }
    assert(all_digits(digits));
    if value > max as u128 {
        None
    } else {
        Some(value as u64)
    }
}

/// Reads a port number as a `u16` is read from text.
pub fn parse_port(text: &str) -> (port: Option<u16>)
    ensures
        port == parse_port_spec(text@),
{
    match parse_unsigned(text, 65535) {
        Some(v) => Some(v as u16),
        None => None,
    }
}

/// Splits a "HOST PORT" master address at its first space and reads the port.
pub fn parse_replica_of(params: &str) -> (res: Result<(String, u16), ReplicaOfError>)
    ensures
        match replica_of_spec(params@) {
            Ok((host, port)) => res matches Ok((h, p)) && h@ == host && p == port,
            Err(e) => res == Err::<(String, u16), ReplicaOfError>(e),
        },
{
    let n = params.unicode_len();
    let mut i: usize = 0;
    let mut found = false;
    while i < n && !found
        invariant
            n == params@.len(),
            i <= n,
            found ==> i < n && params@[i as int] == ' ',
            first_space_from(params@, 0) == first_space_from(params@, i as int),
        decreases n - i + (if found { 0int } else { 1int }),
    {
        if params.get_char(i) == ' ' {
            found = true;
        } else {
            i = i + 1;
        }
    }
    if !found {
        return Err(ReplicaOfError::MissingSeparator);
    }
    assert(first_space_from(params@, 0) == Some(i as int));
    let host = params.substring_char(0, i).to_owned();
    let port_text = params.substring_char(i + 1, n);
    match parse_port(port_text) {
        Some(port) => Ok((host, port)),
        None => Err(ReplicaOfError::InvalidPort),
    }
}

} // verus!
