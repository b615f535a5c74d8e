//! The failures the core reports: the storage-level taxonomy, and the
//! use-case-level error handed to callers, with its rendered message.

use vstd::prelude::*;
use vstd::string::StringExecFns;

verus! {

/// What the repository layer can report.
#[derive(Debug, Clone, Copy, PartialEq, Eq, Structural)]
pub enum StoreError {
    /// No event stream exists for the given identity.
    NotFound,
    /// A sequential id exists but its event stream is gone: a broken
    /// referential link, an invariant violation.
    BrokenLink,
    /// A sequential id was issued twice for one identity, or an event
    /// version collided on save: a lost write race.
    IdentityConflict,
    /// The storage engine itself failed.
    Storage,
    /// A stream row would not decode: a corrupt event.
    InvalidEvent,
}

/// What a use case reports to its caller.
#[derive(Debug, Clone, Copy, PartialEq, Eq, Structural)]
pub enum UseCaseError {
    /// No task exists for this sequential id.
    NotFound(i64),
    /// The task for this sequential id is already closed.
    AlreadyClosed(i64),
    /// The repository failed underneath the use case.
    Store(StoreError),
}

/// The decimal character for one digit.
pub open spec fn digit_char(d: int) -> char {
    if d == 0 {
        '0'
    } else if d == 1 {
        '1'
    } else if d == 2 {
        '2'
    } else if d == 3 {
        '3'
    } else if d == 4 {
        '4'
    } else if d == 5 {
        '5'
    } else if d == 6 {
        '6'
    } else if d == 7 {
        '7'
    } else if d == 8 {
        '8'
    } else {
        '9'
    }
}

/// The decimal characters of `n`, most significant first.
pub open spec fn dec_chars(n: nat) -> Seq<char>
    decreases n,
{
    if n < 10 {
        seq![digit_char(n as int)]
    } else {
        dec_chars(n / 10).push(digit_char((n % 10) as int))
    }
}

/// The decimal characters of a signed integer.
pub open spec fn dec_chars_int(n: int) -> Seq<char> {
    if n < 0 {
        seq!['-'] + dec_chars((-n) as nat)
    } else {
        dec_chars(n as nat)
    }
}

/// One digit as a string slice.
fn digit_str(d: u8) -> (r: &'static str)
    requires
        d < 10,
    ensures
        r@ == seq![digit_char(d as int)],
{
    proof {
        reveal_strlit("0");
        reveal_strlit("1");
        reveal_strlit("2");
        reveal_strlit("3");
        reveal_strlit("4");
        reveal_strlit("5");
        reveal_strlit("6");
        reveal_strlit("7");
        reveal_strlit("8");
        reveal_strlit("9");
    }
    match d {
        0 => "0",
        1 => "1",
        2 => "2",
        3 => "3",
        4 => "4",
        5 => "5",
        6 => "6",
        7 => "7",
        8 => "8",
        _ => "9",
    }
}

/// Append the decimal characters of `n`.
fn append_dec_u64(out: &mut String, n: u64)
    ensures
        final(out)@ == old(out)@ + dec_chars(n as nat),
    decreases n,
{
    if n < 10 {
        out.append(digit_str(n as u8));
        assert(final(out)@ =~= old(out)@ + dec_chars(n as nat));
    } else {
        append_dec_u64(out, n / 10);
        out.append(digit_str((n % 10) as u8));
        assert(final(out)@ =~= old(out)@ + dec_chars(n as nat));
    }
}

/// Append the decimal characters of `n`, a minus sign first if negative.
fn append_dec_i64(out: &mut String, n: i64)
    ensures
        final(out)@ == old(out)@ + dec_chars_int(n as int),
{
    proof {
        reveal_strlit("-");
    }
    if n < 0 {
        out.append("-");
        let m: u64 = (-(n as i128)) as u64;
        assert(m == -(n as int));
        append_dec_u64(out, m);
        assert(final(out)@ =~= old(out)@ + dec_chars_int(n as int));
    } else {
        append_dec_u64(out, n as u64);
    }
}

impl UseCaseError {
    /// The message this error renders as.
    pub open spec fn spec_message(self) -> Seq<char> {
        match self {
            UseCaseError::NotFound(id) => "the task for id `"@ + dec_chars_int(id as int)
                + "` is not found"@,
            UseCaseError::AlreadyClosed(id) => "the task for id `"@ + dec_chars_int(id as int)
                + "` has already been closed"@,
            UseCaseError::Store(_) => "the task storage failed"@,
        }
    }

    /// Render the error for the user.
    pub fn message(&self) -> (r: String)
        ensures
            r@ == self.spec_message(),
    {
        match self {
            UseCaseError::NotFound(id) => {
                let mut out = "the task for id `".to_owned();
                append_dec_i64(&mut out, *id);
                out.append("` is not found");
                proof {
                    assert(out@ =~= self.spec_message());
                }
                out
            },
            UseCaseError::AlreadyClosed(id) => {
                let mut out = "the task for id `".to_owned();
                append_dec_i64(&mut out, *id);
                out.append("` has already been closed");
                proof {
                    assert(out@ =~= self.spec_message());
                }
                out
            },
            UseCaseError::Store(_) => {
                "the task storage failed".to_owned()
            },
        }
    }
}

} // verus!
