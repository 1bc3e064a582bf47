//! Identifiers as text: sixteen hexadecimal digits, digit 0 first.

use crate::id::octets::octets_digit;
use crate::id::Id;
use vstd::prelude::*;
use vstd::string::StringExecFns;

verus! {

/// Why a text is not an identifier.
#[derive(Clone, Copy, Debug, PartialEq, Eq, Structural)]
pub enum ParseIdError {
    /// A character is neither a hexadecimal digit nor the separator `-`.
    InvalidDigit,
    /// The text does not hold exactly sixteen hexadecimal digits.
    InvalidLength,
}

/// The predicate that keeps every character but the separator `-`.
pub open spec fn not_separator() -> spec_fn(char) -> bool {
    |c: char| c != '-'
}

/// The text without its separators.
pub open spec fn strip_separators(s: Seq<char>) -> Seq<char> {
    s.filter(not_separator())
}

/// The value of a hexadecimal digit of either case, or `None` for any other
/// character.
pub open spec fn hex_digit_value(c: char) -> Option<int> {
    let u = c as u32 as int;
    if 0x30 <= u <= 0x39 {
        Some(u - 0x30)
    } else if 0x61 <= u <= 0x66 {
        Some(u - 0x61 + 10)
    } else if 0x41 <= u <= 0x46 {
        Some(u - 0x41 + 10)
    } else {
        None
    }
}

/// The lower-case hexadecimal digit that stands for `d`.
pub open spec fn hex_char(d: int) -> char {
    if d < 10 {
        ((0x30 + d) as u8) as char
    } else {
        ((0x61 + d - 10) as u8) as char
    }
}

/// The character in lower case: only the letters `A` to `Z` change.
pub open spec fn lower_char(c: char) -> char {
    let u = c as u32 as int;
    if 0x41 <= u <= 0x5A {
        ((u + 0x20) as u8) as char
    } else {
        c
    }
}

/// The text in lower case.
pub open spec fn lower_text(s: Seq<char>) -> Seq<char> {
    Seq::new(s.len(), |i: int| lower_char(s[i]))
}

/// Whether some character of the text is neither a separator nor a
/// hexadecimal digit.
pub open spec fn has_invalid_char(s: Seq<char>) -> bool {
    exists|i: int| 0 <= i < s.len() && s[i] != '-' && hex_digit_value(s[i]) is None
}

/// The octets that sixteen hexadecimal digits stand for: the digit at
/// position `i` of the text is digit `i` of the identifier.
pub open spec fn digits_octets(body: Seq<char>) -> Seq<u8> {
    Seq::new(
        8,
        |k: int|
            (hex_digit_value(body[2 * k]).unwrap() + 16 * hex_digit_value(
                body[2 * k + 1],
            ).unwrap()) as u8,
    )
}

/// What a text parses to: the octets of the identifier, or the reason why it
/// is none. An invalid character is reported before a wrong length.
pub open spec fn parse_text(s: Seq<char>) -> Result<Seq<u8>, ParseIdError> {
    if has_invalid_char(s) {
        Err(ParseIdError::InvalidDigit)
    } else if strip_separators(s).len() != 16 {
        Err(ParseIdError::InvalidLength)
    } else {
        Ok(digits_octets(strip_separators(s)))
    }
}

/// The sixteen lower-case hexadecimal digits of the octets, digit 0 first.
pub open spec fn hex_text(octets: Seq<u8>) -> Seq<char> {
    Seq::new(16, |i: int| hex_char(octets_digit(octets, i)))
}

/// The value of a hexadecimal digit of either case.
fn hex_value(c: char) -> (r: Option<u8>)
    ensures
        match r {
            Some(d) => hex_digit_value(c) == Some(d as int) && d < 16,
            None => hex_digit_value(c) is None,
        },
{
    let u: u32 = c as u32;
    if 0x30 <= u && u <= 0x39 {
        Some((u - 0x30) as u8)
    } else if 0x61 <= u && u <= 0x66 {
        Some((u - 0x61 + 10) as u8)
    } else if 0x41 <= u && u <= 0x46 {
        Some((u - 0x41 + 10) as u8)
    } else {
        None
    }
}

/// Adding a character at the end of a text adds it to the stripped text,
/// unless it is a separator.
pub proof fn lemma_strip_push(s: Seq<char>, c: char)
    ensures
        strip_separators(s.push(c)) == if c != '-' {
            strip_separators(s).push(c)
        } else {
            strip_separators(s)
        },
{
    s.lemma_filter_push(c, not_separator());
}

impl Id {
    /// Parses sixteen hexadecimal digits of either case; separators `-` may
    /// stand anywhere and are skipped. The digit at position `i` of the text
    /// becomes digit `i` of the identifier.
    pub fn from_str(s: &str) -> (r: Result<Id, ParseIdError>)
        ensures
            match r {
                Ok(id) => parse_text(s@) == Ok::<Seq<u8>, ParseIdError>(id@),
                Err(e) => parse_text(s@) == Err::<Seq<u8>, ParseIdError>(e),
            },
    {
        let mut id: [u8; 8] = [0; 8];
        let mut count: usize = 0;
        for c in it: s.chars()
            invariant
                it.seq() == s@,
                0 <= it.index() <= s@.len(),
                forall|i: int|
                    0 <= i < it.index() ==> s@[i] == '-' || hex_digit_value(s@[i]) is Some,
                forall|j: int|
                    0 <= j < strip_separators(s@.take(it.index())).len() ==> hex_digit_value(
                        #[trigger] strip_separators(s@.take(it.index()))[j],
                    ) is Some,
                count <= 17,
                count == if strip_separators(s@.take(it.index())).len() <= 16 {
                    strip_separators(s@.take(it.index())).len()
                } else {
                    17
                },
                forall|k: int|
                    0 <= k < 8 && 2 * k + 1 < count ==> #[trigger] id@[k] == hex_digit_value(
                        strip_separators(s@.take(it.index()))[2 * k],
                    ).unwrap() + 16 * hex_digit_value(
                        strip_separators(s@.take(it.index()))[2 * k + 1],
                    ).unwrap(),
                count % 2 == 1 && count < 16 ==> id@[count as int / 2] == hex_digit_value(
                    strip_separators(s@.take(it.index()))[count as int - 1],
                ).unwrap(),
        {
            let ghost at = it.index();
            proof {
                assert(s@.take(at + 1) =~= s@.take(at).push(c));
                lemma_strip_push(s@.take(at), c);
            }
            if c != '-' {
                match hex_value(c) {
                    None => {
                        assert(has_invalid_char(s@)) by {
                            assert(s@[at] != '-' && hex_digit_value(s@[at]) is None);
                        }
                        return Err(ParseIdError::InvalidDigit);
                    },
                    Some(d) => {
                        if count < 16 {
                            if count % 2 == 0 {
                                id[count / 2] = d;
                            } else {
                                let low: u8 = id[count / 2];
                                id[count / 2] = low + d * 16;
                            }
                        }
                        if count < 17 {
                            count = count + 1;
                        }
                    },
                }
            }
        }
        proof {
            assert(s@.take(s@.len() as int) =~= s@);
            assert(!has_invalid_char(s@));
        }
        if count != 16 {
            return Err(ParseIdError::InvalidLength);
        }
        let r = Id::new(id);
        assert(r@ =~= digits_octets(strip_separators(s@)));
        Ok(r)
    }
}

/// The one-character text of the lower-case hexadecimal digit `d`.
fn hex_digit_text(d: u8) -> (r: &'static str)
    requires
        d < 16,
    ensures
        r@ == seq![hex_char(d as int)],
{
    let r: &'static str = match d {
        0 => {
            proof {
                reveal_strlit("0");
            }
            "0"
        },
        1 => {
            proof {
                reveal_strlit("1");
            }
            "1"
        },
        2 => {
            proof {
                reveal_strlit("2");
            }
            "2"
        },
        3 => {
            proof {
                reveal_strlit("3");
            }
            "3"
        },
        4 => {
            proof {
                reveal_strlit("4");
            }
            "4"
        },
        5 => {
            proof {
                reveal_strlit("5");
            }
            "5"
        },
        6 => {
            proof {
                reveal_strlit("6");
            }
            "6"
        },
        7 => {
            proof {
                reveal_strlit("7");
            }
            "7"
        },
        8 => {
            proof {
                reveal_strlit("8");
            }
            "8"
        },
        9 => {
            proof {
                reveal_strlit("9");
            }
            "9"
        },
        10 => {
            proof {
                reveal_strlit("a");
            }
            "a"
        },
        11 => {
            proof {
                reveal_strlit("b");
            }
            "b"
        },
        12 => {
            proof {
                reveal_strlit("c");
            }
            "c"
        },
        13 => {
            proof {
                reveal_strlit("d");
            }
            "d"
        },
        14 => {
            proof {
                reveal_strlit("e");
            }
            "e"
        },
        _ => {
            proof {
                reveal_strlit("f");
            }
            "f"
        },
    };
    assert(r@ =~= seq![hex_char(d as int)]);
    r
}

impl Id {
    /// The sixteen lower-case hexadecimal digits of the identifier, digit 0
    /// first and without separators.
    pub fn to_hex(&self) -> (r: String)
        ensures
            r@ == hex_text(self@),
    {
        let mut out = String::new();
        let mut i: usize = 0;
        while i < 16
            invariant
                i <= 16,
                out@ == hex_text(self@).take(i as int),
            decreases 16 - i,
        {
            let d: u8 = self.get_digit(i);
            out.append(hex_digit_text(d));
            assert(out@ =~= hex_text(self@).take(i as int + 1));
            i = i + 1;
        }
        assert(out@ =~= hex_text(self@));
        out
    }
}

/// A hexadecimal digit of either case is written back in lower case.
pub proof fn lemma_hex_char_of_value(c: char)
    requires
        hex_digit_value(c) is Some,
    ensures
        hex_char(hex_digit_value(c).unwrap()) == lower_char(c),
        0 <= hex_digit_value(c).unwrap() < 16,
{
}

/// Parsing a valid text and writing the identifier back gives the text in
/// lower case without its separators.
pub proof fn lemma_parse_format_round_trip(s: Seq<char>)
    requires
        parse_text(s) is Ok,
    ensures
        hex_text(parse_text(s).unwrap()) == lower_text(strip_separators(s)),
{
    let body = strip_separators(s);
    let octets = digits_octets(body);
    assert forall|i: int| 0 <= i < 16 implies hex_digit_value(#[trigger] body[i]) is Some by {
        s.lemma_filter_contains_rev(not_separator(), body[i]);
        s.lemma_filter_pred(not_separator(), i);
        let j = choose|j: int| 0 <= j < s.len() && s[j] == body[i];
        assert(s[j] != '-');
    }
    assert forall|i: int| 0 <= i < 16 implies hex_text(octets)[i] == lower_text(body)[i] by {
        let k = i / 2;
        assert(hex_digit_value(body[2 * k]) is Some);
        assert(hex_digit_value(body[2 * k + 1]) is Some);
        lemma_hex_char_of_value(body[2 * k]);
        lemma_hex_char_of_value(body[2 * k + 1]);
        assert(octets[k] == hex_digit_value(body[2 * k]).unwrap() + 16 * hex_digit_value(
            body[2 * k + 1],
        ).unwrap());
    }
    assert(hex_text(octets) =~= lower_text(body));
}

} // verus!
