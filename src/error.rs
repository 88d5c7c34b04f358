//! The error kinds of the engine.
use vstd::prelude::*;
use vstd::string::*;

use crate::codec::MAX_REASONABLE_HEIGHT;

verus! {

/// An I/O error of the standard library, carried through unchanged.
#[verifier::external_type_specification]
#[verifier::external_body]
pub struct ExIoError(std::io::Error);

/// Error kinds of the database.
#[derive(Debug)]
pub enum Error {
    /// An I/O failure of the underlying files.
    Io(std::io::Error),
    /// The requested hash or height is absent.
    NotFound,
    /// Stored data is corrupt; the message says how.
    Corruption(String),
    /// A value exceeds the maximum value size (not raised by any write path).
    ValueTooLarge(u64),
    /// `create` found database files already present.
    AlreadyExists,
    /// The configuration is invalid (not raised: only a path is required).
    InvalidConfig(String),
    /// A key does not match the hash of its value (not raised: keys are not checked).
    HashMismatch { expected: crate::codec::Hash, actual: crate::codec::Hash },
    /// A height exceeds the maximum reasonable height.
    HeightTooLarge(u64),
}

impl From<std::io::Error> for Error {
    fn from(e: std::io::Error) -> (r: Error)
        ensures
            r == Error::Io(e),
    {
        Error::Io(e)
    }
}

impl vstd::std_specs::convert::FromSpecImpl<std::io::Error> for Error {
    open spec fn obeys_from_spec() -> bool {
        true
    }

    open spec fn from_spec(e: std::io::Error) -> Error {
        Error::Io(e)
    }
}


/// The decimal digit character of `d`.
pub open spec fn digit_char(d: nat) -> char {
    if d == 0 {
        '0'
    } else if d == 1 {
        '1'
    } else if d == 2 {
        '2'
    } else if d == 3 {
        '3'
    } else if d == 4 {
        '4'
    } else if d == 5 {
        '5'
    } else if d == 6 {
        '6'
    } else if d == 7 {
        '7'
    } else if d == 8 {
        '8'
    } else {
        '9'
    }
}

/// The decimal representation of `n`, without leading zeros.
pub open spec fn decimal(n: nat) -> Seq<char>
    decreases n,
{
    if n < 10 {
        seq![digit_char(n)]
    } else {
        decimal(n / 10) + seq![digit_char(n % 10)]
    }
}

/// The bytes of `s` in decimal, separated by ", ".
pub open spec fn byte_list(s: Seq<u8>) -> Seq<char>
    decreases s.len(),
{
    if s.len() == 0 {
        Seq::empty()
    } else if s.len() == 1 {
        decimal(s[0] as nat)
    } else {
        byte_list(s.drop_last()) + ", "@ + decimal(s.last() as nat)
    }
}

/// The bytes of `s` as a bracketed list, as in `[1, 2, 3]`.
pub open spec fn bracketed(s: Seq<u8>) -> Seq<char> {
    "["@ + byte_list(s) + "]"@
}

fn digit_text(d: u64) -> (r: &'static str)
    requires
        d < 10,
    ensures
        r@ == seq![digit_char(d as nat)],
{
    proof {
        reveal_strlit("0");
        reveal_strlit("1");
        reveal_strlit("2");
        reveal_strlit("3");
        reveal_strlit("4");
        reveal_strlit("5");
        reveal_strlit("6");
        reveal_strlit("7");
        reveal_strlit("8");
        reveal_strlit("9");
    }
    let r = if d == 0 {
        "0"
    } else if d == 1 {
        "1"
    } else if d == 2 {
        "2"
    } else if d == 3 {
        "3"
    } else if d == 4 {
        "4"
    } else if d == 5 {
        "5"
    } else if d == 6 {
        "6"
    } else if d == 7 {
        "7"
    } else if d == 8 {
        "8"
    } else {
        "9"
    };
    assert(r@ =~= seq![digit_char(d as nat)]);
    r
}

/// Appends the decimal representation of `n` to `s`.
fn push_decimal(s: &mut String, n: u64)
    ensures
        final(s)@ == old(s)@ + decimal(n as nat),
    decreases n,
{
    if n >= 10 {
        push_decimal(s, n / 10);
    }
    s.append(digit_text(n % 10));
    proof {
        assert(final(s)@ =~= old(s)@ + decimal(n as nat));
    }
}

/// Appends the bracketed byte list of `b` to `s`.
fn push_bytes(s: &mut String, b: &[u8; 32])
    ensures
        final(s)@ == old(s)@ + bracketed(b@),
{
    s.append("[");
    let ghost start = s@;
    let mut i: usize = 0;
    while i < 32
        invariant
            0 <= i <= 32,
            s@ == start + byte_list(b@.subrange(0, i as int)),
        decreases 32 - i,
    {
        if i > 0 {
            s.append(", ");
        }
        push_decimal(s, b[i] as u64);
        proof {
            let next = b@.subrange(0, i + 1);
            assert(next.drop_last() =~= b@.subrange(0, i as int));
            if i == 0 {
                assert(b@.subrange(0, 0) =~= Seq::<u8>::empty());
            }
        }
        i += 1;
    }
    s.append("]");
    assert(b@.subrange(0, 32) =~= b@);
    assert(s@ =~= old(s)@ + bracketed(b@));
}

impl Error {
    /// A human-readable description of the error.
    pub fn message(&self) -> (r: String)
        ensures
            match self {
                Error::Io(_) => r@.len() >= 11 && r@.subrange(0, 11) == "I/O error: "@,
                Error::NotFound => r@ == "Key not found"@,
                Error::Corruption(msg) => r@ == "Data corruption: "@ + msg@,
                Error::ValueTooLarge(size) => r@ == "Value too large: "@ + decimal(*size as nat)
                    + " bytes"@,
                Error::AlreadyExists => r@ == "Database already exists"@,
                Error::InvalidConfig(msg) => r@ == "Invalid config: "@ + msg@,
                Error::HashMismatch { expected, actual } => r@ == "Hash mismatch: expected "@
                    + bracketed(expected@) + ", got "@ + bracketed(actual@),
                Error::HeightTooLarge(h) => r@ == "Height "@ + decimal(*h as nat)
                    + " exceeds maximum "@ + decimal(MAX_REASONABLE_HEIGHT as nat),
            },
    {
        match self {
            Error::Io(e) => {
                let mut s = "I/O error: ".to_string();
                proof {
                    reveal_strlit("I/O error: ");
                }
                let ghost prefix = s@;
                s.append(e.to_string().as_str());
                assert(s@.subrange(0, 11) =~= prefix);
                s
            },
            Error::NotFound => "Key not found".to_string(),
            Error::Corruption(msg) => {
                let mut s = "Data corruption: ".to_string();
                s.append(msg.as_str());
                s
            },
            Error::ValueTooLarge(size) => {
                let mut s = "Value too large: ".to_string();
                push_decimal(&mut s, *size);
                s.append(" bytes");
                s
            },
            Error::AlreadyExists => "Database already exists".to_string(),
            Error::InvalidConfig(msg) => {
                let mut s = "Invalid config: ".to_string();
                s.append(msg.as_str());
                s
            },
            Error::HashMismatch { expected, actual } => {
                let mut s = "Hash mismatch: expected ".to_string();
                push_bytes(&mut s, expected);
                s.append(", got ");
                push_bytes(&mut s, actual);
                s
            },
            Error::HeightTooLarge(h) => {
                let mut s = "Height ".to_string();
                push_decimal(&mut s, *h);
                s.append(" exceeds maximum ");
                push_decimal(&mut s, MAX_REASONABLE_HEIGHT);
                s
            },
        }
    }
}

} // verus!
