use vstd::prelude::*;
use vstd::string::*;
use crate::chars::push_char;

verus! {

/// The lower-case hexadecimal digit character for a value below sixteen.
pub open spec fn hex_char(d: nat) -> char {
    if d < 10 {
        ((d + 48) as u8) as char
    } else {
        ((d + 87) as u8) as char
    }
}

/// The numeric value of one lower-case hexadecimal digit character.
pub open spec fn hex_val(c: char) -> nat {
    if c as nat >= 97 {
        (c as nat - 87) as nat
    } else {
        (c as nat - 48) as nat
    }
}

/// Whether the character is a lower-case hexadecimal digit.
pub open spec fn is_hex(c: char) -> bool {
    (48 <= c as nat && c as nat <= 57) || (97 <= c as nat && c as nat <= 102)
}

/// The hexadecimal digit characters code their values.
pub proof fn lemma_hex_round(d: nat)
    requires
        d < 16,
    ensures
        is_hex(hex_char(d)),
        hex_val(hex_char(d)) == d,
{
}

/// How one character appears inside a quoted text value: quote and backslash
/// get a backslash escape, the named control characters their short escapes,
/// the remaining control characters a four-digit hexadecimal escape, and
/// every other character stands for itself.
pub open spec fn esc_char(c: char) -> Seq<char> {
    if c == '"' {
        seq!['\\', '"']
    } else if c == '\\' {
        seq!['\\', '\\']
    } else if c == '\u{0008}' {
        seq!['\\', 'b']
    } else if c == '\u{0009}' {
        seq!['\\', 't']
    } else if c == '\u{000A}' {
        seq!['\\', 'n']
    } else if c == '\u{000C}' {
        seq!['\\', 'f']
    } else if c == '\u{000D}' {
        seq!['\\', 'r']
    } else if (c as nat) < 32 {
        seq!['\\', 'u', '0', '0', hex_char(c as nat / 16), hex_char(c as nat % 16)]
    } else {
        seq![c]
    }
}

/// A whole text value escaped, character by character.
pub open spec fn escaped(s: Seq<char>) -> Seq<char>
    decreases s.len(),
{
    if s.len() == 0 {
        Seq::empty()
    } else {
        escaped(s.drop_last()) + esc_char(s.last())
    }
}

/// Escaping distributes over concatenation.
pub proof fn lemma_escaped_concat(a: Seq<char>, b: Seq<char>)
    ensures
        escaped(a + b) == escaped(a) + escaped(b),
    decreases b.len(),
{
    if b.len() == 0 {
        assert(a + b =~= a);
        assert(escaped(a) + escaped(b) =~= escaped(a));
    } else {
        lemma_escaped_concat(a, b.drop_last());
        assert((a + b).drop_last() =~= a + b.drop_last());
        assert((a + b).last() == b.last());
        assert(escaped(a) + (escaped(b.drop_last()) + esc_char(b.last())) =~= (escaped(a)
            + escaped(b.drop_last())) + esc_char(b.last()));
    }
}

/// A non-empty text escapes to its first character's escape followed by the
/// escape of the rest.
pub proof fn lemma_escaped_head(s: Seq<char>)
    requires
        s.len() > 0,
    ensures
        escaped(s) == esc_char(s[0]) + escaped(s.drop_first()),
{
    assert(s =~= seq![s[0]] + s.drop_first());
    lemma_escaped_concat(seq![s[0]], s.drop_first());
    assert(seq![s[0]].drop_last() =~= Seq::<char>::empty());
    assert(seq![s[0]].last() == s[0]);
    assert(escaped(Seq::<char>::empty()) =~= Seq::<char>::empty());
    assert(Seq::<char>::empty() + esc_char(s[0]) =~= esc_char(s[0]));
    assert(escaped(seq![s[0]]) =~= esc_char(s[0]));
}

/// The character a two-character backslash escape denotes.
pub open spec fn unescape_char(e: char) -> Option<char> {
    if e == '"' {
        Some('"')
    } else if e == '\\' {
        Some('\\')
    } else if e == 'b' {
        Some('\u{0008}')
    } else if e == 't' {
        Some('\u{0009}')
    } else if e == 'n' {
        Some('\u{000A}')
    } else if e == 'f' {
        Some('\u{000C}')
    } else if e == 'r' {
        Some('\u{000D}')
    } else {
        None
    }
}

/// Reads a quoted text value from position `i` (just past the opening quote)
/// up to and over the closing quote, undoing the escapes; yields the text and
/// the position just past the closing quote.
pub open spec fn parse_text(s: Seq<char>, i: int) -> Option<(Seq<char>, int)>
    decreases s.len() - i,
{
    if i < 0 || i >= s.len() {
        None
    } else if s[i] == '"' {
        Some((Seq::empty(), i + 1))
    } else if s[i] == '\\' {
        if i + 1 < s.len() {
            let e = s[i + 1];
            if e == 'u' {
                if i + 5 < s.len() && s[i + 2] == '0' && s[i + 3] == '0' && is_hex(s[i + 4])
                    && is_hex(s[i + 5]) {
                    let c = ((hex_val(s[i + 4]) * 16 + hex_val(s[i + 5])) as u8) as char;
                    match parse_text(s, i + 6) {
                        Some((t, j)) => Some((seq![c] + t, j)),
                        None => None,
                    }
                } else {
                    None
                }
            } else {
                match unescape_char(e) {
                    Some(c) => match parse_text(s, i + 2) {
                        Some((t, j)) => Some((seq![c] + t, j)),
                        None => None,
                    },
                    None => None,
                }
            }
        } else {
            None
        }
    } else {
        match parse_text(s, i + 1) {
            Some((t, j)) => Some((seq![s[i]] + t, j)),
            None => None,
        }
    }
}

/// Scanning an escaped text followed by its closing quote recovers exactly
/// the text and stops just past the quote.
pub proof fn lemma_parse_text_escaped(s: Seq<char>, i: int, d: Seq<char>)
    requires
        0 <= i,
        i + escaped(d).len() < s.len(),
        s.subrange(i, i + escaped(d).len() as int) == escaped(d),
        s[i + escaped(d).len() as int] == '"',
    ensures
        parse_text(s, i) == Some((d, i + escaped(d).len() + 1)),
    decreases d.len(),
{
    assert(forall|k: int|
        0 <= k < escaped(d).len() ==> s[i + k] == #[trigger] escaped(d)[k]) by {
        assert(forall|k: int|
            0 <= k < escaped(d).len() ==> #[trigger] escaped(d)[k] == s.subrange(
                i,
                i + escaped(d).len() as int,
            )[k]);
    }
    if d.len() == 0 {
        assert(s[i] == '"');
    } else {
        let c = d[0];
        let rest = d.drop_first();
        lemma_escaped_head(d);
        let m = esc_char(c).len() as int;
        let rl = escaped(rest).len() as int;
        assert(escaped(d).len() == m + rl);
        assert forall|k: int| 0 <= k < m implies s[i + k] == #[trigger] esc_char(c)[k] by {
            assert(escaped(d)[k] == esc_char(c)[k]);
            assert(s[i + k] == escaped(d)[k]);
        }
        assert forall|k: int| 0 <= k < rl implies s[i + m + k] == #[trigger] escaped(rest)[k] by {
            assert(escaped(d)[m + k] == escaped(rest)[k]);
            assert(s[i + (m + k)] == escaped(d)[m + k]);
        }
        assert(s.subrange(i + m, i + m + rl) =~= escaped(rest));
        assert(s[i + m + rl] == '"');
        lemma_parse_text_escaped(s, i + m, rest);
        assert(seq![c] + rest =~= d);
        if c == '"' {
            assert(s[i] == '\\' && s[i + 1] == '"');
        } else if c == '\\' {
            assert(s[i] == '\\' && s[i + 1] == '\\');
        } else if c == '\u{0008}' || c == '\u{0009}' || c == '\u{000A}' || c == '\u{000C}' || c
            == '\u{000D}' {
            assert(s[i] == '\\');
            assert(unescape_char(s[i + 1]) == Some(c));
        } else if (c as nat) < 32 {
            assert(s[i] == '\\' && s[i + 1] == 'u' && s[i + 2] == '0' && s[i + 3] == '0');
            assert(s[i + 4] == hex_char(c as nat / 16));
            assert(s[i + 5] == hex_char(c as nat % 16));
            lemma_hex_round(c as nat / 16);
            lemma_hex_round(c as nat % 16);
            assert(hex_val(s[i + 4]) * 16 + hex_val(s[i + 5]) == c as nat);
            vstd::utf8::char_u32_cast(c, c as u32);
            assert(((c as nat) as u8) as nat == c as u32 as nat);
            assert((((c as nat) as u8) as char) == c);
        } else {
            assert(s[i] == c);
        }
    }
}

/// Yields the lower-case hexadecimal digit character of a value below sixteen.
fn hex_char_exec(d: u8) -> (c: char)
    requires
        d < 16,
    ensures
        c == hex_char(d as nat),
{
    if d < 10 {
        (d + 48) as char
    } else {
        (d + 87) as char
    }
}

/// Whether the character is a lower-case hexadecimal digit.
fn is_hex_exec(c: char) -> (r: bool)
    ensures
        r == is_hex(c),
{
    let v = c as u32;
    (48 <= v && v <= 57) || (97 <= v && v <= 102)
}

/// The value of a lower-case hexadecimal digit character.
fn hex_val_exec(c: char) -> (r: u8)
    requires
        is_hex(c),
    ensures
        r as nat == hex_val(c),
{
    let v = c as u32;
    if v >= 97 {
        (v - 87) as u8
    } else {
        (v - 48) as u8
    }
}

/// Appends the escaped form of the text to the string.
pub fn push_escaped(out: &mut String, s: &str)
    ensures
        final(out)@ == old(out)@ + escaped(s@),
{
    let n = s.unicode_len();
    let mut k: usize = 0;
    proof {
        assert(s@.subrange(0, 0) =~= Seq::<char>::empty());
        assert(old(out)@ + escaped(s@.subrange(0, 0)) =~= old(out)@);
    }
    while k < n
        invariant
            0 <= k <= n,
            n == s@.len(),
            out@ == old(out)@ + escaped(s@.subrange(0, k as int)),
        decreases n - k,
    {
        let c = s.get_char(k);
        proof {
            assert(s@.subrange(0, k as int + 1).drop_last() =~= s@.subrange(0, k as int));
            assert(s@.subrange(0, k as int + 1).last() == c);
        }
        if c == '"' {
            out.append("\\\"");
            proof {
                reveal_strlit("\\\"");
                assert("\\\""@ =~= esc_char(c));
            }
        } else if c == '\\' {
            out.append("\\\\");
            proof {
                reveal_strlit("\\\\");
                assert("\\\\"@ =~= esc_char(c));
            }
        } else if c == '\u{0008}' {
            out.append("\\b");
            proof {
                reveal_strlit("\\b");
                assert("\\b"@ =~= esc_char(c));
            }
        } else if c == '\u{0009}' {
            out.append("\\t");
            proof {
                reveal_strlit("\\t");
                assert("\\t"@ =~= esc_char(c));
            }
        } else if c == '\u{000A}' {
            out.append("\\n");
            proof {
                reveal_strlit("\\n");
                assert("\\n"@ =~= esc_char(c));
            }
        } else if c == '\u{000C}' {
            out.append("\\f");
            proof {
                reveal_strlit("\\f");
                assert("\\f"@ =~= esc_char(c));
            }
        } else if c == '\u{000D}' {
            out.append("\\r");
            proof {
                reveal_strlit("\\r");
                assert("\\r"@ =~= esc_char(c));
            }
        } else if (c as u32) < 32 {
            out.append("\\u00");
            let v = c as u32;
            let hi = hex_char_exec((v / 16) as u8);
            let lo = hex_char_exec((v % 16) as u8);
            push_char(out, hi);
            push_char(out, lo);
            proof {
                reveal_strlit("\\u00");
                assert(hi == hex_char(c as nat / 16));
                assert(lo == hex_char(c as nat % 16));
                assert("\\u00"@ + seq![hi] + seq![lo] =~= esc_char(c));
            }
        } else {
            push_char(out, c);
            proof {
                assert(seq![c] =~= esc_char(c));
            }
        }
        proof {
            assert(out@ =~= old(out)@ + escaped(s@.subrange(0, k as int + 1)));
        }
        k = k + 1;
    }
    proof {
        assert(s@.subrange(0, n as int) =~= s@);
    }
}

/// Reads a quoted text value, undoing the escapes; implements `parse_text`.
pub fn parse_text_exec(s: &Vec<char>, i: usize) -> (r: Option<(String, usize)>)
    requires
        i <= s@.len(),
    ensures
        match r {
            Some((d, j)) => parse_text(s@, i as int) == Some((d@, j as int)) && i < j <= s@.len(),
            None => parse_text(s@, i as int) is None,
        },
    decreases s@.len() - i,
{
    if i >= s.len() {
        return None;
    }
    let c = s[i];
    if c == '"' {
        return Some((String::new(), i + 1));
    }
    if c == '\\' {
        if i + 1 >= s.len() {
            return None;
        }
        let e = s[i + 1];
        if e == 'u' {
            if s.len() - i <= 5 {
                return None;
            }
            if !(s[i + 2] == '0' && s[i + 3] == '0' && is_hex_exec(s[i + 4]) && is_hex_exec(
                s[i + 5],
            )) {
                return None;
            }
            let hv = hex_val_exec(s[i + 4]) * 16 + hex_val_exec(s[i + 5]);
            let ch = hv as char;
            match parse_text_exec(s, i + 6) {
                Some((t, j)) => {
                    let mut r = String::new();
                    push_char(&mut r, ch);
                    r.append(t.as_str());
                    proof {
                        assert(r@ =~= seq![ch] + t@);
                    }
                    Some((r, j))
                },
                None => None,
            }
        } else {
            let ch = match e {
                '"' => '"',
                '\\' => '\\',
                'b' => '\u{0008}',
                't' => '\u{0009}',
                'n' => '\u{000A}',
                'f' => '\u{000C}',
                'r' => '\u{000D}',
                _ => { return None; },
            };
            proof {
                assert(unescape_char(e) == Some(ch));
            }
            match parse_text_exec(s, i + 2) {
                Some((t, j)) => {
                    let mut r = String::new();
                    push_char(&mut r, ch);
                    r.append(t.as_str());
                    proof {
                        assert(r@ =~= seq![ch] + t@);
                    }
                    Some((r, j))
                },
                None => None,
            }
        }
    } else {
        match parse_text_exec(s, i + 1) {
            Some((t, j)) => {
                let mut r = String::new();
                push_char(&mut r, c);
                r.append(t.as_str());
                proof {
                    assert(r@ =~= seq![c] + t@);
                }
                Some((r, j))
            },
            None => None,
        }
    }
}

} // verus!
