//! The Scratchpad window's URL handling.
use vstd::prelude::*;
use vstd::string::StringSliceAdditionalSpecFns;
use crate::strs::from_chars;

verus! {

pub const SCRATCHPAD_LABEL: &'static str = "scratchpad";

/// Emitted after any note mutation.
pub const NOTES_CHANGED_EVENT: &'static str = "notes-changed";

/// Asks an already-open Scratchpad to switch to a note.
pub const SCRATCHPAD_OPEN_NOTE_EVENT: &'static str = "scratchpad-open-note";

/// URL-query bytes left as they are: ASCII letters (65–90, 97–122), digits
/// (48–57), `-` (45), `_` (95), `.` (46) and `~` (126).
pub open spec fn unreserved(b: u8) -> bool {
    (65 <= b <= 90) || (97 <= b <= 122) || (48 <= b <= 57) || b == 45 || b == 95 || b == 46 || b
        == 126
}

/// Upper-case hexadecimal digit for `d < 16`.
pub open spec fn hex_digit(d: u8) -> char {
    if d < 10 {
        (48 + d) as char
    } else {
        (65 + d - 10) as char
    }
}

/// The encoding of one byte.
pub open spec fn encode_byte(b: u8) -> Seq<char> {
    if unreserved(b) {
        seq![b as char]
    } else {
        seq!['%', hex_digit(b / 16), hex_digit(b % 16)]
    }
}

/// Percent-encoding of a byte sequence.
pub open spec fn encode_bytes(bytes: Seq<u8>) -> Seq<char>
    decreases bytes.len(),
{
    if bytes.len() == 0 {
        Seq::empty()
    } else {
        encode_bytes(bytes.drop_last()) + encode_byte(bytes.last())
    }
}

/// A character that may stand in a URL query as it is: an unreserved ASCII
/// character or the `%` that starts an escape.
pub open spec fn url_safe(c: char) -> bool {
    let n = c as int;
    (65 <= n <= 90) || (97 <= n <= 122) || (48 <= n <= 57) || n == 45 || n == 95 || n == 46 || n
        == 126 || n == 37
}

proof fn lemma_encode_bytes_url_safe(bytes: Seq<u8>)
    ensures
        forall|i: int| 0 <= i < encode_bytes(bytes).len() ==> url_safe(#[trigger] encode_bytes(bytes)[i]),
    decreases bytes.len(),
{
    if bytes.len() > 0 {
        let front = encode_bytes(bytes.drop_last());
        let b = bytes.last();
        lemma_encode_bytes_url_safe(bytes.drop_last());
        let e = encode_byte(b);
        assert forall|i: int| 0 <= i < e.len() implies url_safe(#[trigger] e[i]) by {
            if !unreserved(b) && i > 0 {
                let d: u8 = if i == 1 { b / 16 } else { b % 16 };
                assert(e[i] == hex_digit(d));
            }
        }
        assert forall|i: int| 0 <= i < encode_bytes(bytes).len() implies url_safe(
            #[trigger] encode_bytes(bytes)[i],
        ) by {
            if i < front.len() {
                assert(encode_bytes(bytes)[i] == front[i]);
            } else {
                assert(encode_bytes(bytes)[i] == e[i - front.len()]);
            }
        }
    }
}

fn hex(d: u8) -> (c: char)
    requires
        d < 16,
    ensures
        c == hex_digit(d),
{
    if d < 10 {
        (48u8 + d) as char
    } else {
        (65u8 + d - 10) as char
    }
}

/// Percent-encodes every UTF-8 byte of `value` outside the unreserved set as
/// `%XX` (upper-case hex); unreserved bytes pass through, so the result
/// holds nothing that could end or split a query value.
pub fn encode_query(value: &str) -> (r: String)
    ensures
        r@ == encode_bytes(value.spec_bytes()),
        forall|i: int| 0 <= i < r@.len() ==> url_safe(#[trigger] r@[i]),
{
    let bytes = value.as_bytes();
    let mut out: Vec<char> = Vec::new();
    let mut i: usize = 0;
    while i < bytes.len()
        invariant
            i <= bytes@.len(),
            bytes@ == value.spec_bytes(),
            out@ == encode_bytes(bytes@.take(i as int)),
        decreases bytes@.len() - i,
    {
        let b = bytes[i];
        if (65u8 <= b && b <= 90u8) || (97u8 <= b && b <= 122u8) || (48u8 <= b && b <= 57u8) || b
            == 45u8 || b == 95u8 || b == 46u8 || b == 126u8 {
            out.push(b as char);
        } else {
            out.push('%');
            out.push(hex(b / 16));
            out.push(hex(b % 16));
        }
        proof {
            let t = bytes@.take(i + 1);
            assert(t.drop_last() =~= bytes@.take(i as int));
            assert(t.last() == b);
            assert(out@ =~= encode_bytes(bytes@.take(i as int)) + encode_byte(b));
        }
        i = i + 1;
    }
    assert(bytes@.take(i as int) =~= bytes@);
    proof {
        lemma_encode_bytes_url_safe(bytes@);
    }
    from_chars(out.as_slice())
}

} // verus!
