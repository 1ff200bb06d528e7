//! Small parsers on byte slices. Each takes the input that is left and
//! gives, on success, the rest of the input and what it took.

use vstd::prelude::*;
use vstd::slice::slice_subrange;
use crate::grammar::{find_byte, lemma_find_byte_is};
use crate::parser::ParseError;

verus! {

/// Takes `pat` off the front of `input`.
///
/// An input shorter than `pat` is incomplete, whatever it holds; one that
/// starts otherwise is a bad request.
pub fn tag<'a, 'b>(input: &'a [u8], pat: &'b [u8]) -> (r: Result<(&'a [u8], &'a [u8]), ParseError>)
    ensures
        match r {
            Ok((rest, taken)) => pat@.len() <= input@.len() && taken@ == pat@ && taken@
                == input@.take(pat@.len() as int) && rest@ == input@.skip(pat@.len() as int),
            Err(e) => if input@.len() < pat@.len() {
                e == ParseError::Incomplete
            } else {
                e == ParseError::BadRequest && input@.take(pat@.len() as int) != pat@
            },
        },
{
    if input.len() < pat.len() {
        return Err(ParseError::Incomplete);
    }
    let n = pat.len();
    let mut i: usize = 0;
    while i < n
        invariant
            i <= n,
            n == pat@.len(),
            n <= input@.len(),
            forall|j: int| 0 <= j < i ==> input@[j] == pat@[j],
        decreases n - i,
    {
        if input[i] != pat[i] {
            return Err(ParseError::BadRequest);
        }
        i += 1;
    }
    Ok((slice_subrange(input, n, input.len()), slice_subrange(input, 0, n)))
}

/// Takes the byte `byte` off the front of `input`.
pub fn tagb(input: &[u8], byte: u8) -> (r: Result<(&[u8], u8), ParseError>)
    ensures
        match r {
            Ok((rest, taken)) => input@.len() > 0 && input@[0] == byte && taken == byte && rest@
                == input@.skip(1),
            Err(e) => if input@.len() == 0 {
                e == ParseError::Incomplete
            } else {
                e == ParseError::BadRequest && input@[0] != byte
            },
        },
{
    if input.len() < 1 {
        return Err(ParseError::Incomplete);
    }
    if input[0] == byte {
        return Ok((slice_subrange(input, 1, input.len()), input[0]));
    }
    Err(ParseError::BadRequest)
}

/// Takes the first `n` bytes of `input` when `cond` holds of each.
///
/// An input shorter than `n` is incomplete; a byte among the first `n` of
/// which `cond` does not hold makes a bad request.
pub fn ensure_n<F>(input: &[u8], n: usize, cond: F) -> (r: Result<(&[u8], &[u8]), ParseError>) where
    F: Fn(u8) -> bool,

    requires
        forall|b: u8| call_requires(cond, (b,)),
    ensures
        match r {
            Ok((rest, taken)) => n <= input@.len() && taken@ == input@.take(n as int) && rest@
                == input@.skip(n as int) && forall|j: int|
                0 <= j < n ==> call_ensures(cond, (#[trigger] input@[j],), true),
            Err(e) => if input@.len() < n {
                e == ParseError::Incomplete
            } else {
                e == ParseError::BadRequest && exists|j: int|
                    0 <= j < n && call_ensures(cond, (#[trigger] input@[j],), false)
            },
        },
{
    if input.len() < n {
        return Err(ParseError::Incomplete);
    }
    let mut i: usize = 0;
    while i < n
        invariant
            i <= n <= input@.len(),
            forall|b: u8| call_requires(cond, (b,)),
            forall|j: int| 0 <= j < i ==> call_ensures(cond, (#[trigger] input@[j],), true),
        decreases n - i,
    {
        if !cond(input[i]) {
            return Err(ParseError::BadRequest);
        }
        i += 1;
    }
    Ok((slice_subrange(input, n, input.len()), slice_subrange(input, 0, n)))
}

/// Takes the bytes up to the first `end`, which it passes over, when `cond`
/// holds of each of them.
///
/// A byte before the first `end` of which `cond` does not hold makes a bad
/// header name; an input without `end` is incomplete.
pub fn validate_until<F>(input: &[u8], end: u8, cond: F) -> (r: Result<
    (&[u8], &[u8]),
    ParseError,
>) where F: Fn(u8) -> bool
    requires
        forall|b: u8| call_requires(cond, (b,)),
    ensures
        match r {
            Ok((rest, taken)) => exists|i: int|
                0 <= i < input@.len() && input@[i] == end && taken@ == #[trigger] input@.take(i)
                    && rest@ == input@.skip(i + 1) && forall|j: int|
                    0 <= j < i ==> input@[j] != end && call_ensures(
                        cond,
                        (#[trigger] input@[j],),
                        true,
                    ),
            Err(e) => if e == ParseError::Incomplete {
                forall|j: int|
                    0 <= j < input@.len() ==> input@[j] != end && call_ensures(
                        cond,
                        (#[trigger] input@[j],),
                        true,
                    )
            } else {
                e == ParseError::BadHeaderName && exists|i: int|
                    0 <= i < input@.len() && input@[i] != end && call_ensures(
                        cond,
                        (#[trigger] input@[i],),
                        false,
                    ) && forall|j: int| 0 <= j < i ==> input@[j] != end
            },
        },
{
    let mut i: usize = 0;
    while i < input.len()
        invariant
            i <= input@.len(),
            forall|b: u8| call_requires(cond, (b,)),
            forall|j: int|
                0 <= j < i ==> input@[j] != end && call_ensures(
                    cond,
                    (#[trigger] input@[j],),
                    true,
                ),
        decreases input@.len() - i,
    {
        let b = input[i];
        if b == end {
            let taken = slice_subrange(input, 0, i);
            return Ok((slice_subrange(input, i + 1, input.len()), taken));
        }
        if !cond(b) {
            return Err(ParseError::BadHeaderName);
        }
        i += 1;
    }
    Err(ParseError::Incomplete)
}

/// Takes the bytes before the first of which `cond` holds; an input
/// without such a byte is incomplete.
pub fn take_until<F>(input: &[u8], cond: F) -> (r: Result<(&[u8], &[u8]), ParseError>) where
    F: Fn(u8) -> bool,

    requires
        forall|b: u8| call_requires(cond, (b,)),
    ensures
        match r {
            Ok((rest, taken)) => exists|i: int|
                0 <= i < input@.len() && call_ensures(cond, (input@[i],), true) && taken@
                    == #[trigger] input@.take(i) && rest@ == input@.skip(i) && forall|j: int|
                    0 <= j < i ==> call_ensures(cond, (#[trigger] input@[j],), false),
            Err(e) => e == ParseError::Incomplete && forall|j: int|
                0 <= j < input@.len() ==> call_ensures(cond, (#[trigger] input@[j],), false),
        },
{
    let mut i: usize = 0;
    while i < input.len()
        invariant
            i <= input@.len(),
            forall|b: u8| call_requires(cond, (b,)),
            forall|j: int| 0 <= j < i ==> call_ensures(cond, (#[trigger] input@[j],), false),
        decreases input@.len() - i,
    {
        if cond(input[i]) {
            let taken = slice_subrange(input, 0, i);
            return Ok((slice_subrange(input, i, input.len()), taken));
        }
        i += 1;
    }
    Err(ParseError::Incomplete)
}

/// Takes the bytes before the first of which `cond` does not hold. When it
/// holds of all, the last byte is left in the input: whether the run ends
/// there is not known yet.
pub fn take_till<F>(input: &[u8], cond: F) -> (r: Result<(&[u8], &[u8]), ParseError>) where
    F: Fn(u8) -> bool,

    requires
        forall|b: u8| call_requires(cond, (b,)),
    ensures
        r matches Ok((rest, taken)) && exists|i: int|
            {
                &&& 0 <= i <= input@.len()
                &&& taken@ == #[trigger] input@.take(i)
                &&& rest@ == input@.skip(i)
                &&& forall|j: int| 0 <= j < i ==> call_ensures(cond, (#[trigger] input@[j],), true)
                &&& {
                    ||| i < input@.len() && call_ensures(cond, (input@[i],), false)
                    ||| i + 1 == input@.len() && call_ensures(cond, (input@[i],), true)
                    ||| input@.len() == 0
                }
            },
{
    let mut i: usize = 0;
    while i < input.len()
        invariant
            i <= input@.len(),
            forall|b: u8| call_requires(cond, (b,)),
            forall|j: int| 0 <= j < i ==> call_ensures(cond, (#[trigger] input@[j],), true),
        decreases input@.len() - i,
    {
        if !cond(input[i]) {
            let taken = slice_subrange(input, 0, i);
            return Ok((slice_subrange(input, i, input.len()), taken));
        }
        i += 1;
    }
    let offset: usize = if input.len() == 0 {
        0
    } else {
        input.len() - 1
    };
    let taken = slice_subrange(input, 0, offset);
    Ok((slice_subrange(input, offset, input.len()), taken))
}

/// Takes the bytes before the first `needle`, which it passes over. An
/// input without `needle`, or with nothing behind the first one, is
/// incomplete.
pub fn find_and_skip_byte(buf: &[u8], needle: u8) -> (r: Result<(&[u8], &[u8]), ParseError>)
    ensures
        ({
            let p = find_byte(buf@, needle, 0, buf@.len() as int);
            if p + 1 < buf@.len() {
                r matches Ok((rest, taken)) && taken@ == buf@.take(p) && rest@ == buf@.skip(p + 1)
            } else {
                r matches Err(e) && e == ParseError::Incomplete
            }
        }),
{
    let len = buf.len();
    match memchr::memchr(needle, buf) {
        Some(p) => {
            proof {
                lemma_find_byte_is(buf@, needle, 0, len as int, p as int);
            }
            if p + 1 == len {
                return Err(ParseError::Incomplete);
            }
            Ok((slice_subrange(buf, p + 1, len), slice_subrange(buf, 0, p)))
        },
        None => {
            proof {
                lemma_find_byte_is(buf@, needle, 0, len as int, len as int);
            }
            Err(ParseError::Incomplete)
        },
    }
}

/// Whether the two bytes of `needle` stand at `p` and behind it.
pub open spec fn pair_at(buf: Seq<u8>, needle: [u8; 2], p: int) -> bool {
    0 <= p && p + 1 < buf.len() && buf[p] == needle[0] && buf[p + 1] == needle[1]
}

/// Takes the bytes before the first place where the two bytes of `needle`
/// stand one behind the other, and passes over the two. An input without
/// such a place is incomplete.
pub fn find_and_skip_2bytes(buf: &[u8], needle: [u8; 2]) -> (r: Result<
    (&[u8], &[u8]),
    ParseError,
>)
    ensures
        match r {
            Ok((rest, taken)) => exists|p: int|
                pair_at(buf@, needle, p) && taken@ == #[trigger] buf@.take(p) && rest@ == buf@.skip(
                    p + 2,
                ) && forall|q: int| 0 <= q < p ==> !pair_at(buf@, needle, q),
            Err(e) => e == ParseError::Incomplete && forall|q: int| !pair_at(buf@, needle, q),
        },
{
    let len = buf.len();
    let mut off: usize = 0;
    loop
        invariant
            len == buf@.len(),
            off <= len,
            forall|q: int| 0 <= q < off ==> !pair_at(buf@, needle, q),
        decreases len - off,
    {
        let rest = slice_subrange(buf, off, len);
        match memchr::memchr(needle[0], rest) {
            None => {
                assert forall|q: int| !pair_at(buf@, needle, q) by {
                    if off <= q < len {
                        assert(buf@[q] == rest@[q - off]);
                    }
                }
                return Err(ParseError::Incomplete);
            },
            Some(i) => {
                let p = off + i;
                assert forall|q: int| 0 <= q < p implies !pair_at(buf@, needle, q) by {
                    if off <= q {
                        assert(buf@[q] == rest@[q - off]);
                    }
                }
                if p + 1 >= len {
                    return Err(ParseError::Incomplete);
                }
                if buf[p + 1] == needle[1] {
                    let taken = slice_subrange(buf, 0, p);
                    return Ok((slice_subrange(buf, p + 2, len), taken));
                }
                off = p + 1;
            },
        }
    }
}

} // verus!
