use crate::replication::{parse_unsigned, parse_unsigned_spec};
use crate::storage_result::{StorageError, StorageResult};
use crate::text::{join, join_spec, lowercase, to_lowercase, words_of};
use vstd::prelude::*;

verus! {

/// How long a key lives: `EX` in seconds, `PX` in milliseconds.
#[derive(Debug, Clone, Copy, PartialEq, Eq, Structural)]
pub enum KeyExpiry {
    EX(u64),
    PX(u64),
}

/// Whether a key must already exist (`XX`) or must not (`NX`).
#[derive(Debug, Clone, Copy, PartialEq, Eq, Structural)]
pub enum KeyExistence {
    NX,
    XX,
}

/// The options of a SET command.
#[derive(Debug, Clone, Copy, PartialEq, Eq, Structural)]
pub struct SetArgs {
    pub expiry: Option<KeyExpiry>,
    pub existence: Option<KeyExistence>,
    pub get: bool,
}

/// The length of an expiry, in nanoseconds.
pub open spec fn expiry_nanos(e: KeyExpiry) -> int {
    match e {
        KeyExpiry::EX(secs) => secs * 1_000_000_000,
        KeyExpiry::PX(millis) => millis * 1_000_000,
    }
}

impl KeyExpiry {
    /// The length of the expiry, in nanoseconds.
    pub fn as_nanos(&self) -> (n: u128)
        ensures
            n == expiry_nanos(*self),
    {
        match self {
            KeyExpiry::EX(secs) => (*secs as u128) * 1_000_000_000,
            KeyExpiry::PX(millis) => (*millis as u128) * 1_000_000,
        }
    }
}

impl SetArgs {
    /// No options: no expiry, no existence condition, no GET.
    pub fn new() -> (args: Self)
        ensures
            args.expiry is None,
            args.existence is None,
            !args.get,
    {
        SetArgs { expiry: None, existence: None, get: false }
    }
}

/// What one option word of a SET command does, given in lower case, with
/// the word after it if there is one, to the options `acc` read so far: the
/// options after it and the number of words it takes; nothing where it
/// cannot be read. "nx" or "xx" sets the existence condition, "get" asks for
/// the old value, "ex" or "px" takes the next word as a positive number of
/// seconds or milliseconds. A repeated option, a missing or invalid number,
/// or an unknown word gives nothing.
pub open spec fn set_option_spec(w: Seq<char>, next: Option<Seq<char>>, acc: SetArgs) -> Option<
    (SetArgs, int),
> {
    if w == "nx"@ || w == "xx"@ {
        if acc.existence is Some {
            None
        } else {
            Some(
                (
                    SetArgs {
                        existence: Some(
                            if w == "nx"@ {
                                KeyExistence::NX
                            } else {
                                KeyExistence::XX
                            },
                        ),
                        ..acc
                    },
                    1,
                ),
            )
        }
    } else if w == "get"@ {
        if acc.get {
            None
        } else {
            Some((SetArgs { get: true, ..acc }, 1))
        }
    } else if w == "ex"@ || w == "px"@ {
        match next {
            None => None,
            Some(t) => if acc.expiry is Some {
                None
            } else {
                match parse_unsigned_spec(t, u64::MAX) {
                    Some(v) => if v == 0 {
                        None
                    } else {
                        Some(
                            (
                                SetArgs {
                                    expiry: Some(
                                        if w == "ex"@ {
                                            KeyExpiry::EX(v)
                                        } else {
                                            KeyExpiry::PX(v)
                                        },
                                    ),
                                    ..acc
                                },
                                2,
                            ),
                        )
                    },
                    None => None,
                }
            },
        }
    } else {
        None
    }
}

/// The options of a SET command read from the words after key and value,
/// from position `i` on, with `acc` read so far; each word is read in lower
/// case.
pub open spec fn set_args_from(words: Seq<Seq<char>>, i: int, acc: SetArgs) -> Option<SetArgs>
    decreases words.len() - i,
{
    if i < 0 || i >= words.len() {
        Some(acc)
    } else {
        let next = if i + 1 < words.len() {
            Some(words[i + 1])
        } else {
            None
        };
        match set_option_spec(lowercase(words[i]), next, acc) {
            None => None,
            Some((a, k)) => if k >= 1 {
                set_args_from(words, i + k, a)
            } else {
                None
            },
        }
    }
}

/// The options of a SET command read from the words after key and value.
pub open spec fn set_args_spec(words: Seq<Seq<char>>) -> Option<SetArgs> {
    set_args_from(words, 0, SetArgs { expiry: None, existence: None, get: false })
}

/// Reads one option word of a SET command, given in lower case, with the
/// word after it if there is one: the options after it and the number of
/// words it takes, or nothing where it cannot be read.
pub fn set_option(word: &String, next: Option<&String>, acc: SetArgs) -> (res: Option<(SetArgs, usize)>)
    ensures
        match set_option_spec(
            word@,
            match next {
                Some(t) => Some(t@),
                None => None,
            },
            acc,
        ) {
            None => res is None,
            Some((a, k)) => res matches Some((b, n)) && b == a && n == k,
        },
{
    let nx = String::from_str("nx");
    let xx = String::from_str("xx");
    let ex = String::from_str("ex");
    let px = String::from_str("px");
    if *word == nx || *word == xx {
        if acc.existence.is_some() {
            None
        } else {
            let existence = if *word == nx { KeyExistence::NX } else { KeyExistence::XX };
            Some((SetArgs { existence: Some(existence), ..acc }, 1))
        }
    } else if *word == String::from_str("get") {
        if acc.get {
            None
        } else {
            Some((SetArgs { get: true, ..acc }, 1))
        }
    } else if *word == ex || *word == px {
        match next {
            None => None,
            Some(t) => {
                if acc.expiry.is_some() {
                    return None;
                }
                match parse_unsigned(t.as_str(), u64::MAX) {
                    Some(v) => {
                        if v == 0 {
                            None
                        } else {
                            let expiry = if *word == ex { KeyExpiry::EX(v) } else { KeyExpiry::PX(v) };
                            Some((SetArgs { expiry: Some(expiry), ..acc }, 2))
                        }
                    },
                    None => None,
                }
            },
        }
    } else {
        None
    }
}

/// Reads the options of a SET command from the words after key and value;
/// words it cannot read give a syntax error that quotes them all.
pub fn parse_set_arguments(args: &Vec<String>) -> (res: StorageResult<SetArgs>)
    ensures
        match set_args_spec(words_of(args@)) {
            Some(a) => res == Ok::<SetArgs, StorageError>(a),
            None => res matches Err(StorageError::CommandSyntaxError(t)) && t@ == join_spec(
                words_of(args@),
            ),
        },
{
    let ghost words = words_of(args@);
    let mut acc = SetArgs::new();
    let mut i: usize = 0;
    while i < args.len()
        invariant
            words == words_of(args@),
            i <= args@.len(),
            set_args_spec(words) == set_args_from(words, i as int, acc),
        decreases args@.len() - i,
    {
        let w = to_lowercase(args[i].as_str());
        assert(words[i as int] == args@[i as int]@);
        let next = if i + 1 < args.len() {
            assert(words[i + 1] == args@[i + 1]@);
            Some(&args[i + 1])
        } else {
            None
        };
        match set_option(&w, next, acc) {
            None => {
                return Err(StorageError::CommandSyntaxError(join(args)));
            },
            Some((a, k)) => {
                acc = a;
                i = i + k;
            },
        }
    }
    Ok(acc)
}

} // verus!
