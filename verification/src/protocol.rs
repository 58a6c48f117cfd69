//! The request a client sends to the daemon: the format string, prefixed
//! with `+` when the time to full charge is wanted.

use vstd::prelude::*;
use vstd::utf8::{decode_utf8, encode_utf8, valid_utf8};
use crate::text::{chars_after, chars_of, string_of, utf8_text};

verus! {

/// The format used when a request names none (or cannot be read).
pub open spec fn default_format() -> Seq<char> {
    "%m"@
}

/// The text of a request for `fmt`.
pub open spec fn request_text(fmt: Seq<char>, include_charging: bool) -> Seq<char> {
    if include_charging {
        seq!['+'] + fmt
    } else {
        fmt
    }
}

/// What a request text asks for: the format (the default where it is
/// empty) and whether the time to full charge is wanted (a leading `+`).
pub open spec fn request_of(text: Seq<char>) -> (Seq<char>, bool) {
    let charging = text.len() > 0 && text[0] == '+';
    let body = if charging {
        text.drop_first()
    } else {
        text
    };
    (if body.len() == 0 {
        default_format()
    } else {
        body
    }, charging)
}

/// What the bytes of a request ask for; bytes that are not UTF-8 ask for
/// the default format.
pub open spec fn decoded_request(bytes: Seq<u8>) -> (Seq<char>, bool) {
    if valid_utf8(bytes) {
        request_of(decode_utf8(bytes))
    } else {
        (default_format(), false)
    }
}

/// The request a client sends for `fmt`.
pub fn encode_request(fmt: &str, include_charging: bool) -> (r: String)
    ensures
        r@ == request_text(fmt@, include_charging),
{
    if include_charging {
        let mut r = String::from_str("+");
        r.append(fmt);
        proof {
            reveal_strlit("+");
        }
        assert(r@ =~= seq!['+'] + fmt@);
        r
    } else {
        String::from_str(fmt)
    }
}

/// Reads a request: the format string and whether charging time is wanted.
pub fn decode_request(bytes: &[u8]) -> (r: (String, bool))
    ensures
        (r.0@, r.1) == decoded_request(bytes@),
{
    let text = match utf8_text(bytes) {
        Some(t) => t,
        None => String::from_str("%m"),
    };
    let v = chars_of(text.as_str());
    let charging = v.len() > 0 && v[0] == '+';
    let body = if charging {
        chars_after(&v, 1)
    } else {
        chars_after(&v, 0)
    };
    assert(v@.skip(0) =~= v@);
    assert(v@.len() > 0 ==> v@.skip(1) =~= v@.drop_first());
    proof {
        reveal_strlit("%m");
    }
    if body.len() == 0 {
        (String::from_str("%m"), charging)
    } else {
        (string_of(&body), charging)
    }
}

/// The reply a client gets while the daemon holds no sample yet (when
/// `reply_estimate` gives `None`).
pub fn no_data_reply() -> (r: String)
    ensures
        r@ == "no data"@,
{
    String::from_str("no data")
}

/// A request that a client encodes reads back as the format it was made
/// for (the default for an empty one) and the same charging choice, as long
/// as a format sent without charging time does not itself begin with `+`.
pub proof fn lemma_request_round_trip(fmt: Seq<char>, include_charging: bool)
    requires
        !include_charging ==> !(fmt.len() > 0 && fmt[0] == '+'),
    ensures
        decoded_request(encode_utf8(request_text(fmt, include_charging))) == (
            if fmt.len() == 0 {
                default_format()
            } else {
                fmt
            },
            include_charging,
        ),
{
    let text = request_text(fmt, include_charging);
    vstd::utf8::encode_utf8_valid_utf8(text);
    vstd::utf8::encode_utf8_decode_utf8(text);
    if include_charging {
        assert(text.drop_first() =~= fmt);
    }
}

} // verus!
