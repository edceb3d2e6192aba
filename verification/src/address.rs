//! Account address validation.
//!
//! An address is a string of exactly forty hexadecimal digits, with an
//! optional `0x` prefix, naming a twenty-byte account.  Only the syntax is
//! checked (hex digits of either case are accepted; no case checksum is
//! enforced).  Validation happens before any query is issued.

use vstd::prelude::*;

verus! {

/// Hexadecimal digit characters: `0-9`, `a-f`, `A-F`.
pub open spec fn is_hex_digit(c: char) -> bool {
    let v = c as u32;
    (48 <= v && v <= 57) || (97 <= v && v <= 102) || (65 <= v && v <= 70)
}

/// Numeric value of a hexadecimal digit character.
pub open spec fn hex_digit_value(c: char) -> nat {
    let v = c as u32;
    if 48 <= v && v <= 57 {
        (v - 48) as nat
    } else if 97 <= v && v <= 102 {
        (v - 87) as nat
    } else {
        (v - 55) as nat
    }
}

/// The hex digits of an address string, with any `0x` prefix removed.
pub open spec fn hex_body(s: Seq<char>) -> Seq<char> {
    if s.len() >= 2 && s[0] == '0' && s[1] == 'x' {
        s.subrange(2, s.len() as int)
    } else {
        s
    }
}

/// A syntactically valid account address: forty hex digits, optionally
/// prefixed by `0x`.
pub open spec fn valid_address(s: Seq<char>) -> bool {
    let h = hex_body(s);
    h.len() == 40 && (forall|i: int| 0 <= i < 40 ==> is_hex_digit(#[trigger] h[i]))
}

/// The twenty bytes a valid address denotes, big-endian pairs of digits.
pub open spec fn address_bytes(s: Seq<char>) -> Seq<u8> {
    let h = hex_body(s);
    Seq::new(20, |i: int| (hex_digit_value(h[2 * i]) * 16 + hex_digit_value(h[2 * i + 1])) as u8)
}

/// A validated account address: the text as given, plus the twenty bytes it
/// denotes.
pub struct AccountAddress {
    text: String,
    bytes: Vec<u8>,
}

impl AccountAddress {
    /// The address text as given by the caller.
    pub closed spec fn text_spec(self) -> Seq<char> {
        self.text@
    }

    /// The address is well formed: valid text, bytes decoded from it.
    pub closed spec fn wf(self) -> bool {
        valid_address(self.text@) && self.bytes@ == address_bytes(self.text@)
    }

    /// The decoded twenty bytes.
    pub fn bytes(&self) -> (b: &Vec<u8>)
        requires
            self.wf(),
        ensures
            b@ == address_bytes(self.text_spec()),
    {
        &self.bytes
    }

    /// The address text.
    pub fn text(&self) -> (t: &String)
        ensures
            t@ == self.text_spec(),
    {
        &self.text
    }

    /// Gives the address text up, consuming the value.
    pub fn into_text(self) -> (t: String)
        ensures
            t@ == self.text_spec(),
    {
        self.text
    }

    /// Gives the decoded bytes up, consuming the value.
    pub fn into_bytes(self) -> (b: Vec<u8>)
        requires
            self.wf(),
        ensures
            b@ == address_bytes(self.text_spec()),
    {
        self.bytes
    }
}

/// Value of one hex digit character, or `None` when it is not one.
fn hex_val(c: char) -> (r: Option<u8>)
    ensures
        r is Some <==> is_hex_digit(c),
        r matches Some(v) ==> v as nat == hex_digit_value(c) && v < 16,
{
    let u = c as u32;
    if 48 <= u && u <= 57 {
        Some((u - 48) as u8)
    } else if 97 <= u && u <= 102 {
        Some((u - 87) as u8)
    } else if 65 <= u && u <= 70 {
        Some((u - 55) as u8)
    } else {
        None
    }
}

/// Parses and validates an address string; succeeds exactly on valid
/// addresses and never touches anything but the string.
pub fn parse_address(text: &str) -> (r: Option<AccountAddress>)
    ensures
        r is Some <==> valid_address(text@),
        r matches Some(a) ==> a.wf() && a.text_spec() == text@,
{
    let n = text.unicode_len();
    let prefixed: bool = n >= 2 && text.get_char(0) == '0' && text.get_char(1) == 'x';
    let off: usize = if prefixed {
        2
    } else {
        0
    };
    let ghost h = hex_body(text@);
    proof {
        assert(h.len() == n - off);
        assert(forall|j: int| 0 <= j < h.len() ==> h[j] == text@[off + j]);
    }
    if n < off || n - off != 40 {
        return None;
    }
    let mut bytes: Vec<u8> = Vec::new();
    let mut i: usize = 0;
    while i < 20
        invariant
            0 <= i <= 20,
            off == 0 || off == 2,
            text@.len() == 40 + off,
            h == hex_body(text@),
            h.len() == 40,
            forall|j: int| 0 <= j < h.len() ==> h[j] == text@[off + j],
            bytes@.len() == i,
            forall|j: int| 0 <= j < 2 * i ==> is_hex_digit(#[trigger] h[j]),
            forall|k: int|
                0 <= k < i ==> bytes@[k] as nat == hex_digit_value(h[2 * k]) * 16
                    + hex_digit_value(h[2 * k + 1]),
        decreases 20 - i,
    {
        let c1 = text.get_char(off + 2 * i);
        let c2 = text.get_char(off + 2 * i + 1);
        let v1 = hex_val(c1);
        let v2 = hex_val(c2);
        match (v1, v2) {
            (Some(a), Some(b)) => {
                bytes.push(a * 16 + b);
                proof {
                    assert(h[2 * i as int] == text@[off + 2 * i]);
                    assert(h[2 * i as int + 1] == text@[off + 2 * i + 1]);
                    assert(is_hex_digit(h[2 * i as int]));
                    assert(is_hex_digit(h[2 * i as int + 1]));
                    assert forall|j: int| 0 <= j < 2 * (i + 1) implies is_hex_digit(
                        #[trigger] h[j],
                    ) by {
                        if j >= 2 * i {
                            assert(j == 2 * i as int || j == 2 * i as int + 1);
                        }
                    }
                }
            },
            _ => {
                proof {
                    assert(h[2 * i as int] == text@[off + 2 * i]);
                    assert(h[2 * i as int + 1] == text@[off + 2 * i + 1]);
                    if v1 is None {
                        assert(!is_hex_digit(h[2 * i]));
                    } else {
                        assert(!is_hex_digit(h[2 * i + 1]));
                    }
                    assert(!valid_address(text@));
                }
                return None;
            },
        }
        i = i + 1;
    }
    proof {
        assert(valid_address(text@));
        assert forall|k: int| 0 <= k < 20 implies bytes@[k] == address_bytes(text@)[k] by {
            assert(bytes@[k] as nat == hex_digit_value(h[2 * k]) * 16 + hex_digit_value(
                h[2 * k + 1],
            ));
            assert(is_hex_digit(h[2 * k]) && is_hex_digit(h[2 * k + 1]));
        }
        assert(bytes@ =~= address_bytes(text@));
    }
    Some(AccountAddress { text: text.to_owned(), bytes })
}

} // verus!
