//! Framing the JSON error body: string escaping as the wire format wants
//! it, and the two-field error object.

use crate::numparse::digit_char;
use vstd::prelude::*;
use vstd::string::{StrSliceExecFns, StringExecFns};

verus! {

/// The lowercase hexadecimal digit of a value below sixteen.
pub open spec fn hex_char(d: nat) -> char {
    if d < 10 {
        digit_char(d)
    } else if d == 10 {
        'a'
    } else if d == 11 {
        'b'
    } else if d == 12 {
        'c'
    } else if d == 13 {
        'd'
    } else if d == 14 {
        'e'
    } else {
        'f'
    }
}

/// How one character appears inside a JSON string: quote and backslash are
/// escaped, control characters get their short escape or a `\u00XX` escape,
/// everything else passes through.
pub open spec fn json_escape_char(c: char) -> Seq<char> {
    let u = c as u32;
    if u == 34 {
        seq!['\\', '"']
    } else if u == 92 {
        seq!['\\', '\\']
    } else if u == 8 {
        seq!['\\', 'b']
    } else if u == 9 {
        seq!['\\', 't']
    } else if u == 10 {
        seq!['\\', 'n']
    } else if u == 12 {
        seq!['\\', 'f']
    } else if u == 13 {
        seq!['\\', 'r']
    } else if u < 32 {
        seq!['\\', 'u', '0', '0', hex_char((u / 16) as nat), hex_char((u % 16) as nat)]
    } else {
        seq![c]
    }
}

/// A whole string escaped character by character.
pub open spec fn json_escape(s: Seq<char>) -> Seq<char>
    decreases s.len(),
{
    if s.len() == 0 {
        Seq::<char>::empty()
    } else {
        json_escape(s.drop_last()) + json_escape_char(s.last())
    }
}

/// The escape sequence of a character that cannot pass through, or `None`
/// for one that can.
fn escape_of(c: char) -> (r: Option<&'static str>)
    ensures
        r matches Some(e) ==> e@ == json_escape_char(c),
        r is None ==> json_escape_char(c) == seq![c],
{
    proof {
        reveal_strlit("\\u0000");
        reveal_strlit("\\u0001");
        reveal_strlit("\\u0002");
        reveal_strlit("\\u0003");
        reveal_strlit("\\u0004");
        reveal_strlit("\\u0005");
        reveal_strlit("\\u0006");
        reveal_strlit("\\u0007");
        reveal_strlit("\\b");
        reveal_strlit("\\t");
        reveal_strlit("\\n");
        reveal_strlit("\\u000b");
        reveal_strlit("\\f");
        reveal_strlit("\\r");
        reveal_strlit("\\u000e");
        reveal_strlit("\\u000f");
        reveal_strlit("\\u0010");
        reveal_strlit("\\u0011");
        reveal_strlit("\\u0012");
        reveal_strlit("\\u0013");
        reveal_strlit("\\u0014");
        reveal_strlit("\\u0015");
        reveal_strlit("\\u0016");
        reveal_strlit("\\u0017");
        reveal_strlit("\\u0018");
        reveal_strlit("\\u0019");
        reveal_strlit("\\u001a");
        reveal_strlit("\\u001b");
        reveal_strlit("\\u001c");
        reveal_strlit("\\u001d");
        reveal_strlit("\\u001e");
        reveal_strlit("\\u001f");
        reveal_strlit("\\\"");
        reveal_strlit("\\\\");
    }
    let u = c as u32;
    let r: Option<&'static str> = if u > 92 {
        None
    } else if u == 0 {
        Some("\\u0000")
    } else if u == 1 {
        Some("\\u0001")
    } else if u == 2 {
        Some("\\u0002")
    } else if u == 3 {
        Some("\\u0003")
    } else if u == 4 {
        Some("\\u0004")
    } else if u == 5 {
        Some("\\u0005")
    } else if u == 6 {
        Some("\\u0006")
    } else if u == 7 {
        Some("\\u0007")
    } else if u == 8 {
        Some("\\b")
    } else if u == 9 {
        Some("\\t")
    } else if u == 10 {
        Some("\\n")
    } else if u == 11 {
        Some("\\u000b")
    } else if u == 12 {
        Some("\\f")
    } else if u == 13 {
        Some("\\r")
    } else if u == 14 {
        Some("\\u000e")
    } else if u == 15 {
        Some("\\u000f")
    } else if u == 16 {
        Some("\\u0010")
    } else if u == 17 {
        Some("\\u0011")
    } else if u == 18 {
        Some("\\u0012")
    } else if u == 19 {
        Some("\\u0013")
    } else if u == 20 {
        Some("\\u0014")
    } else if u == 21 {
        Some("\\u0015")
    } else if u == 22 {
        Some("\\u0016")
    } else if u == 23 {
        Some("\\u0017")
    } else if u == 24 {
        Some("\\u0018")
    } else if u == 25 {
        Some("\\u0019")
    } else if u == 26 {
        Some("\\u001a")
    } else if u == 27 {
        Some("\\u001b")
    } else if u == 28 {
        Some("\\u001c")
    } else if u == 29 {
        Some("\\u001d")
    } else if u == 30 {
        Some("\\u001e")
    } else if u == 31 {
        Some("\\u001f")
    } else if u == 34 {
        Some("\\\"")
    } else if u == 92 {
        Some("\\\\")
    } else {
        None
    };
    proof {
        if r is Some {
            assert(r->0@ =~= json_escape_char(c));
        }
    }
    r
}

/// Escapes `s` for a JSON string, as `json_escape` describes.
#[verifier::loop_isolation(false)]
pub fn json_escape_str(s: &str) -> (r: String)
    ensures
        r@ == json_escape(s@),
{
    let mut out = String::new();
    let n = s.unicode_len();
    let mut i: usize = 0;
    proof {
        assert(json_escape(s@.take(0)) =~= out@);
    }
    while i < n
        invariant
            i <= n,
            out@ == json_escape(s@.take(i as int)),
        decreases n - i,
    {
        let c = s.get_char(i);
        proof {
            assert(s@.take(i + 1).drop_last() =~= s@.take(i as int));
            assert(s@.take(i + 1).last() == c);
        }
        match escape_of(c) {
            Some(e) => {
                out.append(e);
            },
            None => {
                let piece = s.substring_char(i, i + 1);
                proof {
                    assert(piece@ =~= seq![c]);
                }
                out.append(piece);
            },
        }
        i = i + 1;
    }
    proof {
        assert(s@.take(n as int) =~= s@);
    }
    out
}

/// The JSON error body: a `message` member always, an `error` member only
/// when a class name is present, both escaped.
pub open spec fn error_body_json(class: Option<Seq<char>>, message: Seq<char>) -> Seq<char> {
    match class {
        Some(c) => "{\"error\":\""@ + json_escape(c) + "\",\"message\":\""@ + json_escape(
            message,
        ) + "\"}"@,
        None => "{\"message\":\""@ + json_escape(message) + "\"}"@,
    }
}

/// Frames the JSON error body, as `error_body_json` describes.
pub fn render_error_body(class: Option<&String>, message: &str) -> (r: String)
    ensures
        r@ == error_body_json(
            match class {
                Some(c) => Some(c@),
                None => None,
            },
            message@,
        ),
{
    match class {
        Some(c) => {
            let mut out = String::from_str("{\"error\":\"");
            let ec = json_escape_str(c.as_str());
            out.append(ec.as_str());
            out.append("\",\"message\":\"");
            let em = json_escape_str(message);
            out.append(em.as_str());
            out.append("\"}");
            proof {
                assert(out@ =~= error_body_json(Some(c@), message@));
            }
            out
        },
        None => {
            let mut out = String::from_str("{\"message\":\"");
            let em = json_escape_str(message);
            out.append(em.as_str());
            out.append("\"}");
            proof {
                assert(out@ =~= error_body_json(None::<Seq<char>>, message@));
            }
            out
        },
    }
}

} // verus!
