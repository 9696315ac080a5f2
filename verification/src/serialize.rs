//! Canonical JSON serialization of a claim set.
//!
//! The text is an object holding the entries in claim set order, with a
//! fixed escaping rule, so that equal claim sets serialize to identical
//! bytes.

use vstd::prelude::*;
use crate::claims::{ClaimSet, ClaimSpec, EntryV, build_spec};

verus! {

/// The character of a hexadecimal digit value.
pub open spec fn hex_char(v: int) -> char {
    if v == 0 {
        '0'
    } else if v == 1 {
        '1'
    } else if v == 2 {
        '2'
    } else if v == 3 {
        '3'
    } else if v == 4 {
        '4'
    } else if v == 5 {
        '5'
    } else if v == 6 {
        '6'
    } else if v == 7 {
        '7'
    } else if v == 8 {
        '8'
    } else if v == 9 {
        '9'
    } else if v == 10 {
        'a'
    } else if v == 11 {
        'b'
    } else if v == 12 {
        'c'
    } else if v == 13 {
        'd'
    } else if v == 14 {
        'e'
    } else {
        'f'
    }
}

fn hex_digit_str(v: u8) -> (r: &'static str)
    requires
        v < 16,
    ensures
        r@ == seq![hex_char(v as int)],
{
    match v {
        0 => {
            proof {
                reveal_strlit("0");
                assert("0"@ =~= seq![hex_char(0)]);
            }
            "0"
        },
        1 => {
            proof {
                reveal_strlit("1");
                assert("1"@ =~= seq![hex_char(1)]);
            }
            "1"
        },
        2 => {
            proof {
                reveal_strlit("2");
                assert("2"@ =~= seq![hex_char(2)]);
            }
            "2"
        },
        3 => {
            proof {
                reveal_strlit("3");
                assert("3"@ =~= seq![hex_char(3)]);
            }
            "3"
        },
        4 => {
            proof {
                reveal_strlit("4");
                assert("4"@ =~= seq![hex_char(4)]);
            }
            "4"
        },
        5 => {
            proof {
                reveal_strlit("5");
                assert("5"@ =~= seq![hex_char(5)]);
            }
            "5"
        },
        6 => {
            proof {
                reveal_strlit("6");
                assert("6"@ =~= seq![hex_char(6)]);
            }
            "6"
        },
        7 => {
            proof {
                reveal_strlit("7");
                assert("7"@ =~= seq![hex_char(7)]);
            }
            "7"
        },
        8 => {
            proof {
                reveal_strlit("8");
                assert("8"@ =~= seq![hex_char(8)]);
            }
            "8"
        },
        9 => {
            proof {
                reveal_strlit("9");
                assert("9"@ =~= seq![hex_char(9)]);
            }
            "9"
        },
        10 => {
            proof {
                reveal_strlit("a");
                assert("a"@ =~= seq![hex_char(10)]);
            }
            "a"
        },
        11 => {
            proof {
                reveal_strlit("b");
                assert("b"@ =~= seq![hex_char(11)]);
            }
            "b"
        },
        12 => {
            proof {
                reveal_strlit("c");
                assert("c"@ =~= seq![hex_char(12)]);
            }
            "c"
        },
        13 => {
            proof {
                reveal_strlit("d");
                assert("d"@ =~= seq![hex_char(13)]);
            }
            "d"
        },
        14 => {
            proof {
                reveal_strlit("e");
                assert("e"@ =~= seq![hex_char(14)]);
            }
            "e"
        },
        _ => {
            proof {
                reveal_strlit("f");
                assert("f"@ =~= seq![hex_char(v as int)]);
            }
            "f"
        },
    }
}

/// The escaped form of one character inside a JSON string literal: quote
/// and backslash get a backslash escape, the common control characters
/// their short form, the remaining control characters the `\u00XX` form,
/// and every other character stands as itself.
pub open spec fn json_escape_char(c: char) -> Seq<char> {
    if c == '"' {
        seq!['\\', '"']
    } else if c == '\\' {
        seq!['\\', '\\']
    } else if c == '\n' {
        seq!['\\', 'n']
    } else if c == '\r' {
        seq!['\\', 'r']
    } else if c == '\t' {
        seq!['\\', 't']
    } else if (c as u32) < 32 {
        seq!['\\', 'u', '0', '0', hex_char(c as u32 as int / 16), hex_char(c as u32 as int % 16)]
    } else {
        seq![c]
    }
}

/// The escaped text of a whole string.
pub open spec fn json_escaped(s: Seq<char>) -> Seq<char>
    decreases s.len(),
{
    if s.len() == 0 {
        Seq::empty()
    } else {
        json_escaped(s.drop_last()) + json_escape_char(s.last())
    }
}

fn append_escaped(out: &mut String, s: &str)
    ensures
        final(out)@ == old(out)@ + json_escaped(s@),
{
    let n = s.unicode_len();
    for i in 0..n
        invariant
            n == s@.len(),
            out@ == old(out)@ + json_escaped(s@.take(i as int)),
    {
        let c = s.get_char(i);
        if c == '"' {
            out.append("\\\"");
            proof {
                reveal_strlit("\\\"");
                assert("\\\""@ =~= json_escape_char('"'));
            }
        } else if c == '\\' {
            out.append("\\\\");
            proof {
                reveal_strlit("\\\\");
                assert("\\\\"@ =~= json_escape_char('\\'));
            }
        } else if c == '\n' {
            out.append("\\n");
            proof {
                reveal_strlit("\\n");
                assert("\\n"@ =~= json_escape_char('\n'));
            }
        } else if c == '\r' {
            out.append("\\r");
            proof {
                reveal_strlit("\\r");
                assert("\\r"@ =~= json_escape_char('\r'));
            }
        } else if c == '\t' {
            out.append("\\t");
            proof {
                reveal_strlit("\\t");
                assert("\\t"@ =~= json_escape_char('\t'));
            }
        } else if (c as u32) < 32 {
            let v: u32 = c as u32;
            out.append("\\u00");
            out.append(hex_digit_str((v / 16) as u8));
            out.append(hex_digit_str((v % 16) as u8));
            proof {
                reveal_strlit("\\u00");
                assert("\\u00"@ + seq![hex_char(v as int / 16)] + seq![hex_char(v as int % 16)]
                    =~= json_escape_char(c));
            }
        } else {
            let piece = s.substring_char(i, i + 1);
            out.append(piece);
            proof {
                assert(piece@ =~= json_escape_char(c));
            }
        }
        proof {
            assert(s@.take(i + 1).drop_last() =~= s@.take(i as int));
            assert(s@.take(i + 1).last() == s@[i as int]);
            assert(out@ =~= old(out)@ + json_escaped(s@.take(i + 1)));
        }
    }
    proof {
        assert(s@.take(n as int) =~= s@);
    }
}

/// The JSON text of one entry's value: a quoted, escaped text, or `null`.
pub open spec fn json_value(v: Option<Seq<char>>) -> Seq<char> {
    match v {
        Some(s) => seq!['"'] + json_escaped(s) + seq!['"'],
        None => "null"@,
    }
}

/// The JSON text of one entry: the quoted, escaped name, a colon, and the
/// value.
pub open spec fn json_entry(e: EntryV) -> Seq<char> {
    seq!['"'] + json_escaped(e.0) + seq!['"', ':'] + json_value(e.1)
}

/// The comma-joined members of the object, in claim set order.
pub open spec fn json_members(entries: Seq<EntryV>) -> Seq<char>
    decreases entries.len(),
{
    if entries.len() == 0 {
        Seq::empty()
    } else if entries.len() == 1 {
        json_entry(entries[0])
    } else {
        json_members(entries.drop_last()) + seq![','] + json_entry(entries.last())
    }
}

/// The canonical JSON text of a claim set: an object holding the entries
/// in claim set order.
pub open spec fn json_of(entries: Seq<EntryV>) -> Seq<char> {
    seq!['{'] + json_members(entries) + seq!['}']
}

/// Serialize a claim set to its canonical JSON text.
pub fn to_json(cs: &ClaimSet) -> (r: String)
    ensures
        r@ == json_of(cs@),
{
    let mut out = String::new();
    out.append("{");
    proof {
        reveal_strlit("{");
        assert(out@ =~= seq!['{'] + json_members(cs@.take(0)));
    }
    let n = cs.len();
    for i in 0..n
        invariant
            n == cs@.len(),
            out@ == seq!['{'] + json_members(cs@.take(i as int)),
    {
        if i > 0 {
            out.append(",");
            proof {
                reveal_strlit(",");
            }
        }
        let e = cs.entry_at(i);
        out.append("\"");
        append_escaped(&mut out, e.0.as_str());
        out.append("\":");
        match &e.1 {
            Some(v) => {
                out.append("\"");
                append_escaped(&mut out, v.as_str());
                out.append("\"");
            },
            None => {
                out.append("null");
            },
        }
        proof {
            reveal_strlit("\"");
            reveal_strlit("\":");
            reveal_strlit("null");
            assert("\""@ =~= seq!['"']);
            assert("\":"@ =~= seq!['"', ':']);
            assert(cs@.take(i + 1).drop_last() =~= cs@.take(i as int));
            assert(cs@.take(i + 1).last() == cs@[i as int]);
            assert(out@ =~= seq!['{'] + json_members(cs@.take(i + 1)));
        }
    }
    out.append("}");
    proof {
        reveal_strlit("}");
        assert(cs@.take(n as int) =~= cs@);
        assert(out@ =~= json_of(cs@));
    }
    out
}

/// Determinism law: the build is a function of the claim spec and the
/// injected current time alone, so equal inputs yield equal claim sets
/// and byte-identical serialized texts.
pub proof fn lemma_build_deterministic(cfg1: ClaimSpec, cfg2: ClaimSpec, now1: u64, now2: u64)
    requires
        cfg1 == cfg2,
        now1 == now2,
    ensures
        build_spec(cfg1, now1) == build_spec(cfg2, now2),
        build_spec(cfg1, now1) is Ok ==> json_of(build_spec(cfg1, now1)->Ok_0.0) == json_of(
            build_spec(cfg2, now2)->Ok_0.0,
        ),
{
}

} // verus!
