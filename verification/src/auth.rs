//! Reading credentials out of an HTTP Basic authorization header.

use vstd::prelude::*;
use vstd::string::*;
use vstd::utf8::*;
use vstd::std_specs::iter::IteratorSpec;
use crate::identity::{base64_bytes, base64_decode};
use crate::text::{string_from_utf8, trim, trimmed};

verus! {

/// Whether a character is the given ASCII letter in either case.
pub open spec fn is_letter_of(c: char, lower: char, upper: char) -> bool {
    c == lower || c == upper
}

/// Whether a header value begins with the scheme `Basic` and a space, the
/// scheme in any mix of cases.
pub open spec fn has_basic_scheme(h: Seq<char>) -> bool {
    h.len() >= 6 && is_letter_of(h[0], 'b', 'B') && is_letter_of(h[1], 'a', 'A') && is_letter_of(
        h[2],
        's',
        'S',
    ) && is_letter_of(h[3], 'i', 'I') && is_letter_of(h[4], 'c', 'C') && h[5] == ' '
}

/// The position of the first occurrence of a character.
pub open spec fn find_char(s: Seq<char>, c: char) -> Option<int>
    decreases s.len(),
{
    if s.len() == 0 {
        None
    } else if s[0] == c {
        Some(0)
    } else {
        match find_char(s.drop_first(), c) {
            Some(k) => Some(k + 1),
            None => None,
        }
    }
}

/// A text of the form `user:password`, split at its first colon.
pub open spec fn split_credentials(s: Seq<char>) -> Option<(Seq<char>, Seq<char>)> {
    match find_char(s, ':') {
        Some(i) => if 0 <= i < s.len() {
            Some((s.take(i), s.skip(i + 1)))
        } else {
            None
        },
        None => None,
    }
}

/// The credentials that a payload in base64 carries: the payload decodes to
/// valid UTF-8 of the form `user:password`.
pub open spec fn payload_credentials(payload: Seq<char>) -> Option<(Seq<char>, Seq<char>)> {
    match base64_bytes(encode_utf8(payload)) {
        Some(bytes) => if valid_utf8(bytes) {
            split_credentials(decode_utf8(bytes))
        } else {
            None
        },
        None => None,
    }
}

/// The credentials that a header value carries. The value is trimmed; what
/// follows the scheme is trimmed once more where `trim_payload` is set.
pub open spec fn header_credentials(header: Seq<char>, trim_payload: bool) -> Option<
    (Seq<char>, Seq<char>),
> {
    let h = trimmed(header);
    if has_basic_scheme(h) {
        payload_credentials(
            if trim_payload {
                trimmed(h.skip(6))
            } else {
                h.skip(6)
            },
        )
    } else {
        None
    }
}

/// What the first occurrence of a character is: it is there, and not before.
pub proof fn lemma_find_char(s: Seq<char>, c: char)
    ensures
        match find_char(s, c) {
            Some(k) => 0 <= k < s.len() && s[k] == c && forall|i: int| 0 <= i < k ==> s[i] != c,
            None => forall|i: int| 0 <= i < s.len() ==> s[i] != c,
        },
    decreases s.len(),
{
    if s.len() > 0 && s[0] != c {
        lemma_find_char(s.drop_first(), c);
        assert(forall|i: int| 1 <= i < s.len() ==> s[i] == s.drop_first()[i - 1]);
    }
}

/// Splits `user:password` at its first colon.
pub fn split_at_colon(s: &str) -> (r: Option<(String, String)>)
    ensures
        match split_credentials(s@) {
            Some((u, p)) => r matches Some(pair) && pair.0@ == u && pair.1@ == p,
            None => r is None,
        },
{
    broadcast use group_string_axioms;
    let mut user = String::new();
    let mut pass = String::new();
    let mut found = false;
    let mut it = s.chars();
    let ghost mut done: Seq<char> = Seq::empty();
    let ghost mut at: int = 0;
    assert(done + it.remaining() =~= s@);
    loop
        invariant
            done + it.remaining() == s@,
            it.decrease() is Some,
            !found ==> user@ == done && pass@.len() == 0 && forall|i: int|
                0 <= i < done.len() ==> done[i] != ':',
            found ==> 0 <= at < done.len() && done[at] == ':' && user@ == done.take(at) && pass@
                == done.skip(at + 1) && forall|i: int| 0 <= i < at ==> done[i] != ':',
        decreases it.decrease()->0,
    {
        let ghost before = it.remaining();
        match it.next() {
            None => {
                assert(done =~= s@);
                proof {
                    lemma_find_char(s@, ':');
                }
                if found {
                    return Some((user, pass));
                } else {
                    return None;
                }
            },
            Some(c) => {
                let ghost prev = done;
                proof {
                    assert(done.push(c) + it.remaining() =~= done + before);
                    done = done.push(c);
                }
                if found {
                    pass.push(c);
                    assert(done.take(at) =~= prev.take(at));
                    assert(done.skip(at + 1) =~= prev.skip(at + 1).push(c));
                } else if c == ':' {
                    found = true;
                    proof {
                        at = prev.len() as int;
                        assert(done.take(at) =~= prev);
                        assert(done.skip(at + 1) =~= Seq::<char>::empty());
                    }
                } else {
                    user.push(c);
                }
            },
        }
    }
}

/// Cuts the scheme off a trimmed header value.
fn strip_scheme(h: &str) -> (r: Option<String>)
    ensures
        match r {
            Some(p) => has_basic_scheme(h@) && p@ == h@.skip(6),
            None => !has_basic_scheme(h@),
        },
{
    broadcast use group_string_axioms;
    let mut payload = String::new();
    let mut it = h.chars();
    let mut n: usize = 0;
    let ghost mut done: Seq<char> = Seq::empty();
    assert(done + it.remaining() =~= h@);
    loop
        invariant
            done + it.remaining() == h@,
            it.decrease() is Some,
            n <= 6,
            n < 6 ==> done.len() == n && payload@.len() == 0,
            n == 6 ==> done.len() >= 6 && payload@ == done.skip(6),
            n >= 1 ==> is_letter_of(done[0], 'b', 'B'),
            n >= 2 ==> is_letter_of(done[1], 'a', 'A'),
            n >= 3 ==> is_letter_of(done[2], 's', 'S'),
            n >= 4 ==> is_letter_of(done[3], 'i', 'I'),
            n >= 5 ==> is_letter_of(done[4], 'c', 'C'),
            n >= 6 ==> done[5] == ' ',
        decreases it.decrease()->0,
    {
        let ghost before = it.remaining();
        match it.next() {
            None => {
                assert(done =~= h@);
                if n == 6 {
                    return Some(payload);
                } else {
                    return None;
                }
            },
            Some(c) => {
                let ghost prev = done;
                proof {
                    assert(done.push(c) + it.remaining() =~= done + before);
                    done = done.push(c);
                    assert(h@[prev.len() as int] == c);
                }
                if n == 6 {
                    payload.push(c);
                    assert(done.skip(6) =~= prev.skip(6).push(c));
                } else {
                    let fits = if n == 0 {
                        c == 'b' || c == 'B'
                    } else if n == 1 {
                        c == 'a' || c == 'A'
                    } else if n == 2 {
                        c == 's' || c == 'S'
                    } else if n == 3 {
                        c == 'i' || c == 'I'
                    } else if n == 4 {
                        c == 'c' || c == 'C'
                    } else {
                        c == ' '
                    };
                    if !fits {
                        return None;
                    }
                    n += 1;
                    if n == 6 {
                        assert(done.skip(6) =~= Seq::<char>::empty());
                    }
                }
            },
        }
    }
}

/// Reads the credentials that a payload in base64 carries.
pub fn decode_credentials(payload: &str) -> (r: Option<(String, String)>)
    ensures
        match payload_credentials(payload@) {
            Some((u, p)) => r matches Some(pair) && pair.0@ == u && pair.1@ == p,
            None => r is None,
        },
{
    let bytes = match base64_decode(payload.as_bytes()) {
        Some(b) => b,
        None => { return None; },
    };
    let text = match string_from_utf8(bytes) {
        Some(t) => t,
        None => { return None; },
    };
    proof {
        encode_utf8_decode_utf8(text@);
    }
    split_at_colon(text.as_str())
}

/// Reads the credentials out of a Basic authorization header value.
pub fn basic_credentials(header: &str, trim_payload: bool) -> (r: Option<(String, String)>)
    ensures
        match header_credentials(header@, trim_payload) {
            Some((u, p)) => r matches Some(pair) && pair.0@ == u && pair.1@ == p,
            None => r is None,
        },
{
    let h = trim(header);
    let payload = match strip_scheme(h) {
        Some(p) => p,
        None => { return None; },
    };
    if trim_payload {
        decode_credentials(trim(payload.as_str()))
    } else {
        decode_credentials(payload.as_str())
    }
}

} // verus!
