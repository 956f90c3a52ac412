//! Textual byte patterns and their parsed form.
//!
//! A signature is written as hex pairs and `??` wildcards, optionally
//! separated by spaces, e.g. `"48 8B 0D ?? ?? ?? ?? 48 89 7C 24"`. Parsing
//! turns it into a sequence of matcher codes: 0–255 for an exact byte, 256
//! for "any byte". Malformed text — an odd number of characters once spaces
//! are stripped, or anything that is not a hex pair or `??` — yields no
//! matchers, and a scan with such text reports no matches.

use vstd::prelude::*;
use vstd::string::StrSliceExecFns;

verus! {

/// Matcher code standing for "any byte".
pub const WILDCARD_CODE: u16 = 256;

/// The signature text with all spaces removed.
pub open spec fn strip_spaces(s: Seq<char>) -> Seq<char> {
    s.filter(|c: char| c != ' ')
}

/// Whether `c` is a hexadecimal digit (`0`–`9`, `a`–`f`, `A`–`F`).
pub open spec fn is_hex_digit(c: char) -> bool {
    ||| 48 <= c as u32 <= 57
    ||| 97 <= c as u32 <= 102
    ||| 65 <= c as u32 <= 70
}

/// Numeric value of a hexadecimal digit.
pub open spec fn hex_val(c: char) -> u16 {
    if 48 <= c as u32 <= 57 {
        (c as u32 - 48) as u16
    } else if 97 <= c as u32 <= 102 {
        (c as u32 - 87) as u16
    } else {
        (c as u32 - 55) as u16
    }
}

/// Whether two adjacent characters form one matcher: a wildcard `??` or a
/// hex pair.
pub open spec fn valid_pair(c1: char, c2: char) -> bool {
    (c1 == '?' && c2 == '?') || (is_hex_digit(c1) && is_hex_digit(c2))
}

/// Matcher code of one character pair.
pub open spec fn pair_code(c1: char, c2: char) -> u16 {
    if c1 == '?' && c2 == '?' {
        WILDCARD_CODE
    } else {
        (hex_val(c1) * 16 + hex_val(c2)) as u16
    }
}

/// Whether the signature text is well formed: stripped of spaces it has even
/// length and consists of wildcard and hex pairs only.
pub open spec fn valid_signature_text(s: Seq<char>) -> bool {
    let t = strip_spaces(s);
    &&& t.len() % 2 == 0
    &&& forall|i: int| 0 <= i < t.len() / 2 ==> #[trigger] valid_pair(t[2 * i], t[2 * i + 1])
}

/// The matcher codes of a well-formed signature text.
pub open spec fn parse_signature(s: Seq<char>) -> Seq<u16> {
    let t = strip_spaces(s);
    Seq::new((t.len() / 2) as nat, |i: int| pair_code(t[2 * i], t[2 * i + 1]))
}

/// Every matcher code of a well-formed signature is at most [`WILDCARD_CODE`].
pub proof fn lemma_parse_signature_bounded(s: Seq<char>)
    requires
        valid_signature_text(s),
    ensures
        forall|k: int|
            0 <= k < parse_signature(s).len() ==> #[trigger] parse_signature(s)[k]
                <= WILDCARD_CODE,
{
    let t = strip_spaces(s);
    assert forall|k: int|
        0 <= k < parse_signature(s).len() implies #[trigger] parse_signature(s)[k]
        <= WILDCARD_CODE by {
        assert(valid_pair(t[2 * k], t[2 * k + 1]));
    }
}

/// Effect of one more character on the stripped text.
proof fn lemma_strip_spaces_push(t: Seq<char>, c: char)
    ensures
        strip_spaces(t.push(c)) == if c != ' ' {
            strip_spaces(t).push(c)
        } else {
            strip_spaces(t)
        },
{
    reveal(Seq::filter);
    assert(t.push(c).drop_last() =~= t);
}

/// Numeric value of a hexadecimal digit character.
fn hex_value(c: char) -> (v: u16)
    requires
        is_hex_digit(c),
    ensures
        v == hex_val(c),
        v < 16,
{
    let u = c as u32;
    if u >= 48 && u <= 57 {
        (u - 48) as u16
    } else if u >= 97 && u <= 102 {
        (u - 87) as u16
    } else {
        (u - 55) as u16
    }
}

/// Parses a signature text into matcher codes. Yields `None` — and the scan
/// that asked yields no matches — when the text is malformed.
pub fn get_signature_array(signature: &str) -> (result: Option<Vec<u16>>)
    ensures
        match result {
            Some(v) => valid_signature_text(signature@) && v@ == parse_signature(signature@),
            None => !valid_signature_text(signature@),
        },
{
    let n = signature.unicode_len();
    let mut stripped: Vec<char> = Vec::new();
    let mut i: usize = 0;
    while i < n
        invariant
            0 <= i <= n,
            n == signature@.len(),
            stripped@ == strip_spaces(signature@.take(i as int)),
        decreases n - i,
    {
        let c = signature.get_char(i);
        proof {
            assert(signature@.take(i + 1).drop_last() =~= signature@.take(i as int));
            assert(signature@.take(i + 1) =~= signature@.take(i as int).push(
                signature@[i as int],
            ));
            lemma_strip_spaces_push(signature@.take(i as int), signature@[i as int]);
        }
        if c != ' ' {
            stripped.push(c);
        }
        i = i + 1;
    }
    proof {
        assert(signature@.take(n as int) =~= signature@);
    }

    let len = stripped.len();
    if len % 2 != 0 {
        return None;
    }
    let half = len / 2;
    let mut signature_array: Vec<u16> = Vec::new();
    let mut j: usize = 0;
    while j < half
        invariant
            0 <= j <= half,
            half == stripped@.len() / 2,
            stripped@.len() % 2 == 0,
            stripped@.len() <= usize::MAX,
            stripped@ == strip_spaces(signature@),
            signature_array@ =~= parse_signature(signature@).take(j as int),
            forall|k: int|
                0 <= k < j ==> #[trigger] valid_pair(stripped@[2 * k], stripped@[2 * k + 1]),
        decreases half - j,
    {
        let c1 = stripped[2 * j];
        let c2 = stripped[2 * j + 1];
        let ghost pre = signature_array@;
        let ghost parsed = parse_signature(signature@);
        if c1 == '?' && c2 == '?' {
            signature_array.push(WILDCARD_CODE);
            proof {
                assert(valid_pair(stripped@[2 * (j as int)], stripped@[2 * (j as int) + 1]));
                assert(parsed[j as int] == WILDCARD_CODE);
            }
        } else {
            let h1 = c1 as u32;
            let h2 = c2 as u32;
            let hex1 = (h1 >= 48 && h1 <= 57) || (h1 >= 97 && h1 <= 102) || (h1 >= 65 && h1
                <= 70);
            let hex2 = (h2 >= 48 && h2 <= 57) || (h2 >= 97 && h2 <= 102) || (h2 >= 65 && h2
                <= 70);
            if !(hex1 && hex2) {
                proof {
                    assert(!valid_pair(stripped@[2 * j], stripped@[2 * j + 1]));
                }
                return None;
            }
            let code = hex_value(c1) * 16 + hex_value(c2);
            signature_array.push(code);
            proof {
                assert(valid_pair(stripped@[2 * (j as int)], stripped@[2 * (j as int) + 1]));
                assert(parsed[j as int] == pair_code(
                    stripped@[2 * (j as int)],
                    stripped@[2 * (j as int) + 1],
                ));
            }
        }
        proof {
            assert(parsed.take(j + 1) =~= parsed.take(j as int).push(parsed[j as int]));
            assert(signature_array@ =~= pre.push(parsed[j as int]));
        }
        j = j + 1;
    }
    proof {
        assert(parse_signature(signature@).take(half as int) =~= parse_signature(signature@));
    }
    Some(signature_array)
}

/// Index of the last occurrence of `code` among the matchers, or -1 when it
/// never occurs. Slot 256 thereby records the last wildcard position.
pub open spec fn last_index_of(sig: Seq<u16>, code: u16) -> int
    decreases sig.len(),
{
    if sig.len() == 0 {
        -1
    } else if sig[sig.len() - 1] == code {
        sig.len() - 1
    } else {
        last_index_of(sig.drop_last(), code)
    }
}

/// What [`last_index_of`] means: it is below the length, points at `code`
/// when non-negative, and nothing after it is `code`.
pub proof fn lemma_last_index_of(sig: Seq<u16>, code: u16)
    ensures
        -1 <= last_index_of(sig, code) < sig.len(),
        last_index_of(sig, code) >= 0 ==> sig[last_index_of(sig, code)] == code,
        forall|k: int| last_index_of(sig, code) < k < sig.len() ==> sig[k] != code,
    decreases sig.len(),
{
    if sig.len() > 0 {
        if sig[sig.len() - 1] != code {
            lemma_last_index_of(sig.drop_last(), code);
            assert forall|k: int| last_index_of(sig, code) < k < sig.len() implies sig[k]
                != code by {
                if k < sig.len() - 1 {
                    assert(sig.drop_last()[k] == sig[k]);
                }
            }
        }
    }
}

/// Whether `table` is the skip table of `sig`: one slot per matcher code,
/// each holding the code's last occurrence index, -1 for "never occurs".
pub open spec fn next_table_for(table: Seq<i16>, sig: Seq<u16>) -> bool {
    &&& table.len() == 260
    &&& forall|c: int| 0 <= c < 260 ==> #[trigger] table[c] == last_index_of(sig, c as u16)
}

/// Builds the bad-character skip table: slot `c` holds the last index where
/// matcher code `c` occurs in the signature, or -1. The wildcard's own slot,
/// 256, thereby holds the last wildcard position.
pub fn get_next_array(signature_array: &Vec<u16>) -> (next_array: Vec<i16>)
    requires
        signature_array@.len() <= 0x7FFF,
        forall|k: int|
            0 <= k < signature_array@.len() ==> #[trigger] signature_array@[k] <= WILDCARD_CODE,
    ensures
        next_table_for(next_array@, signature_array@),
{
    let mut next_array: Vec<i16> = Vec::new();
    let mut c: usize = 0;
    while c < 260
        invariant
            next_array@.len() == c,
            c <= 260,
            forall|t: int| 0 <= t < c ==> #[trigger] next_array@[t] == -1,
        decreases 260 - c,
    {
        next_array.push(-1i16);
        c = c + 1;
    }
    proof {
        assert forall|t: int| 0 <= t < 260 implies #[trigger] next_array@[t] == last_index_of(
            signature_array@.take(0),
            t as u16,
        ) by {
            assert(signature_array@.take(0) =~= Seq::<u16>::empty());
        }
    }
    let n = signature_array.len();
    let mut i: usize = 0;
    while i < n
        invariant
            0 <= i <= n,
            n == signature_array@.len(),
            n <= 0x7FFF,
            next_array@.len() == 260,
            forall|k: int|
                0 <= k < signature_array@.len() ==> #[trigger] signature_array@[k]
                    <= WILDCARD_CODE,
            forall|t: int|
                0 <= t < 260 ==> #[trigger] next_array@[t] == last_index_of(
                    signature_array@.take(i as int),
                    t as u16,
                ),
        decreases n - i,
    {
        let code = signature_array[i];
        next_array[code as usize] = i as i16;
        proof {
            let prev = signature_array@.take(i as int);
            let cur = signature_array@.take(i + 1);
            assert(cur.drop_last() =~= prev);
            assert(cur[cur.len() - 1] == signature_array@[i as int]);
            assert forall|t: int| 0 <= t < 260 implies #[trigger] next_array@[t] == last_index_of(
                cur,
                t as u16,
            ) by {
                if t == signature_array@[i as int] as int {
                    assert(last_index_of(cur, t as u16) == i);
                } else {
                    assert(cur[cur.len() - 1] != t as u16);
                }
            }
        }
        i = i + 1;
    }
    proof {
        assert(signature_array@.take(n as int) =~= signature_array@);
    }
    next_array
}

} // verus!
