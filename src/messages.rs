use vstd::prelude::*;
use crate::text::chars_of;
use crate::text::string_from_chars;
use crate::types::ReflectError;

verus! {

pub open spec fn digit_char(d: nat) -> char {
    ('0' as u32 + d) as char
}

/// The decimal digits of `n`, without leading zeros.
pub open spec fn decimal_digits(n: nat) -> Seq<char>
    decreases n,
{
    if n < 10 {
        seq![digit_char(n)]
    } else {
        decimal_digits(n / 10).push(digit_char(n % 10))
    }
}

/// The text of the error.
pub open spec fn message_text(e: ReflectError) -> Seq<char> {
    match e {
        ReflectError::Parse(s) => "failed to parse expression: "@ + s@,
        ReflectError::UnknownType(s, n) => "could not find type "@ + s@ + " (called with "@ + decimal_digits(
            n as nat,
        ) + " arguments)"@,
        ReflectError::NoMatchingConstructor(s, n) => "could not find ctor of "@ + s@ + " for "@ + decimal_digits(
            n as nat,
        ) + " arguments"@,
        ReflectError::MethodNotFound(s) => "could not find method: "@ + s@,
        ReflectError::FunctionNotFound(s) => "could not find function: "@ + s@,
        ReflectError::NoMatchingMethod(s) => "incompatible arguments for method: "@ + s@,
        ReflectError::NoMatchingFunction(s) => "incompatible arguments for function: "@ + s@,
        ReflectError::ArgumentConversionFailure(s, n) => "failed to convert the "@ + decimal_digits(n as nat)
            + " arguments for: "@ + s@,
        ReflectError::Invocation(s) => s@,
    }
}

fn push_all(out: &mut Vec<char>, s: &str)
    ensures
        final(out)@ == old(out)@ + s@,
{
    let cs = chars_of(s);
    let mut i: usize = 0;
    while i < cs.len()
        invariant
            i <= cs@.len(),
            cs@ == s@,
            out@ == old(out)@ + cs@.subrange(0, i as int),
        decreases cs@.len() - i,
    {
        out.push(cs[i]);
        proof {
            assert(out@ =~= old(out)@ + cs@.subrange(0, i as int + 1));
        }
        i = i + 1;
    }
    proof {
        assert(cs@.subrange(0, cs@.len() as int) =~= cs@);
    }
}

fn push_digits(out: &mut Vec<char>, n: usize)
    ensures
        final(out)@ == old(out)@ + decimal_digits(n as nat),
    decreases n,
{
    if n >= 10 {
        push_digits(out, n / 10);
    }
    let d = (n % 10) as u32;
    out.push(char_of_digit(d));
    proof {
        if n >= 10 {
            assert(final(out)@ =~= old(out)@ + decimal_digits(n as nat));
        } else {
            assert(final(out)@ =~= old(out)@ + decimal_digits(n as nat));
        }
    }
}

fn char_of_digit(d: u32) -> (c: char)
    requires
        d < 10,
    ensures
        c == digit_char(d as nat),
{
    if d == 0 { '0' } else if d == 1 { '1' } else if d == 2 { '2' } else if d == 3 { '3' } else if d == 4 {
        '4'
    } else if d == 5 { '5' } else if d == 6 { '6' } else if d == 7 { '7' } else if d == 8 { '8' } else { '9' }
}

impl ReflectError {
    /// The error as descriptive text (see `message_text`).
    pub fn message(&self) -> (r: String)
        ensures
            r@ == message_text(*self),
    {
        let mut out: Vec<char> = Vec::new();
        match self {
            ReflectError::Parse(s) => {
                push_all(&mut out, "failed to parse expression: ");
                push_all(&mut out, s.as_str());
            },
            ReflectError::UnknownType(s, n) => {
                push_all(&mut out, "could not find type ");
                push_all(&mut out, s.as_str());
                push_all(&mut out, " (called with ");
                push_digits(&mut out, *n);
                push_all(&mut out, " arguments)");
            },
            ReflectError::NoMatchingConstructor(s, n) => {
                push_all(&mut out, "could not find ctor of ");
                push_all(&mut out, s.as_str());
                push_all(&mut out, " for ");
                push_digits(&mut out, *n);
                push_all(&mut out, " arguments");
            },
            ReflectError::MethodNotFound(s) => {
                push_all(&mut out, "could not find method: ");
                push_all(&mut out, s.as_str());
            },
            ReflectError::FunctionNotFound(s) => {
                push_all(&mut out, "could not find function: ");
                push_all(&mut out, s.as_str());
            },
            ReflectError::NoMatchingMethod(s) => {
                push_all(&mut out, "incompatible arguments for method: ");
                push_all(&mut out, s.as_str());
            },
            ReflectError::NoMatchingFunction(s) => {
                push_all(&mut out, "incompatible arguments for function: ");
                push_all(&mut out, s.as_str());
            },
            ReflectError::ArgumentConversionFailure(s, n) => {
                push_all(&mut out, "failed to convert the ");
                push_digits(&mut out, *n);
                push_all(&mut out, " arguments for: ");
                push_all(&mut out, s.as_str());
            },
            ReflectError::Invocation(s) => {
                push_all(&mut out, s.as_str());
            },
        }
        proof {
            assert(out@ =~= message_text(*self));
        }
        string_from_chars(out.as_slice())
    }
}

} // verus!
