use vstd::prelude::*;
use vstd::string::*;

verus! {

/// Whether `c` is a lowercase character, as `char::is_lowercase` tells it.
pub uninterp spec fn lowercase(c: char) -> bool;

/// Whether `c` is a numeric character, as `char::is_numeric` tells it.
pub uninterp spec fn numeric(c: char) -> bool;

/// `char::is_lowercase` of the standard library. Its answer depends on the
/// character alone (it is the Unicode property `Lowercase`), so it is given
/// the name `lowercase` and nothing more is claimed of it.
pub assume_specification[ char::is_lowercase ](c: char) -> (b: bool)
    ensures
        b == lowercase(c),
;

/// `char::is_numeric` of the standard library. Its answer depends on the
/// character alone (it is one of Unicode's numeric general categories), so it
/// is given the name `numeric` and nothing more is claimed of it.
pub assume_specification[ char::is_numeric ](c: char) -> (b: bool)
    ensures
        b == numeric(c),
;

/// `String::push` of the standard library appends the character to the end
/// of the string.
pub assume_specification[ String::push ](s: &mut String, c: char)
    ensures
        final(s)@ == old(s)@.push(c),
;

/// The characters of `s`.
pub fn chars_of(s: &str) -> (chars: Vec<char>)
    ensures
        chars@ == s@,
{
    let mut chars: Vec<char> = Vec::new();
    for c in it: s.chars()
        invariant
            chars@ == it.seq().take(it.index()),
            it.seq() == s@,
    {
        chars.push(c);
    }
    chars
}

/// The string that holds the characters of `text`.
pub fn string_of(text: &[char]) -> (s: String)
    ensures
        s@ == text@,
{
    let mut s = String::new();
    let mut i: usize = 0;
    while i < text.len()
        invariant
            i <= text.len(),
            s@ == text@.take(i as int),
        decreases text.len() - i,
    {
        s.push(text[i]);
        i += 1;
    }
    s
}

/// Whether `text` holds the characters of `literal`.
pub fn word_is(text: &[char], literal: &str) -> (same: bool)
    ensures
        same == (text@ == literal@),
{
    let n = literal.unicode_len();
    if text.len() != n {
        return false;
    }
    let mut i: usize = 0;
    while i < n
        invariant
            n == literal@.len(),
            text@.len() == n,
            i <= n,
            forall|j: int| 0 <= j < i ==> text@[j] == literal@[j],
        decreases n - i,
    {
        if text[i] != literal.get_char(i) {
            return false;
        }
        i += 1;
    }
    assert(text@ =~= literal@);
    true
}

/// The value of `c` as a digit: `0` to `9` stand for themselves and the
/// letters, small or capital, for ten and up. None where that is not below
/// `radix`.
pub open spec fn digit(c: char, radix: int) -> Option<int> {
    let d = if '0' <= c <= '9' {
        c as int - '0' as int
    } else if 'a' <= c <= 'z' {
        c as int - 'a' as int + 10
    } else if 'A' <= c <= 'Z' {
        c as int - 'A' as int + 10
    } else {
        radix
    };
    if d < radix {
        Some(d)
    } else {
        None
    }
}

/// The number that the digits stand for in base `radix`, most significant
/// digit first; none where one of them is no digit of that base.
pub open spec fn number_value(digits: Seq<char>, radix: int) -> Option<int>
    decreases digits.len(),
{
    if digits.len() == 0 {
        Some(0)
    } else {
        match (number_value(digits.drop_last(), radix), digit(digits.last(), radix)) {
            (Some(v), Some(d)) => Some(v * radix + d),
            _ => None,
        }
    }
}

/// The unsigned 64-bit number that `text` stands for in base `radix`: an
/// optional `+`, then at least one digit and nothing else, and a value that
/// fits in 64 bits.
pub open spec fn unsigned(text: Seq<char>, radix: int) -> Option<u64> {
    let digits = if text.len() > 0 && text[0] == '+' {
        text.skip(1)
    } else {
        text
    };
    match number_value(digits, radix) {
        Some(v) => if digits.len() > 0 && v <= u64::MAX {
            Some(v as u64)
        } else {
            None
        },
        None => None,
    }
}

/// A number is at least as large as each of its leading parts.
pub proof fn lemma_number_prefix(digits: Seq<char>, radix: int, k: int)
    requires
        0 <= k <= digits.len(),
        radix >= 1,
        number_value(digits, radix) is Some,
    ensures
        number_value(digits.take(k), radix) is Some,
        0 <= number_value(digits.take(k), radix)->0 <= number_value(digits, radix)->0,
    decreases digits.len(),
{
    if k == digits.len() {
        assert(digits.take(k) =~= digits);
        if digits.len() > 0 {
            lemma_number_prefix(digits.drop_last(), radix, k - 1);
            assert(digits.drop_last().take(k - 1) =~= digits.drop_last());
            let v = number_value(digits.drop_last(), radix)->0;
            assert(v * radix >= 0) by (nonlinear_arith)
                requires
                    v >= 0,
                    radix >= 1,
            ;
        }
    } else {
        lemma_number_prefix(digits.drop_last(), radix, k);
        assert(digits.drop_last().take(k) =~= digits.take(k));
        let v = number_value(digits.drop_last(), radix)->0;
        assert(v * radix >= v) by (nonlinear_arith)
            requires
                v >= 0,
                radix >= 1,
        ;
    }
}

/// The value of `c` as a digit of base `radix`.
fn to_digit(c: char, radix: u32) -> (r: Option<u32>)
    requires
        2 <= radix <= 36,
    ensures
        match r {
            Some(d) => digit(c, radix as int) == Some(d as int),
            None => digit(c, radix as int) is None,
        },
{
    let d: u32 = if '0' <= c && c <= '9' {
        c as u32 - '0' as u32
    } else if 'a' <= c && c <= 'z' {
        c as u32 - 'a' as u32 + 10
    } else if 'A' <= c && c <= 'Z' {
        c as u32 - 'A' as u32 + 10
    } else {
        radix
    };
    if d < radix {
        Some(d)
    } else {
        None
    }
}

/// Reads `text` from `from` on as an unsigned 64-bit number in base `radix`.
pub fn parse_unsigned(text: &[char], from: usize, radix: u32) -> (r: Option<u64>)
    requires
        from <= text.len(),
        2 <= radix <= 36,
    ensures
        r == unsigned(text@.skip(from as int), radix as int),
{
    let ghost tail = text@.skip(from as int);
    let mut k: usize = from;
    if k < text.len() && text[k] == '+' {
        k += 1;
    }
    let start = k;
    let ghost digits = text@.skip(start as int);
    proof {
        if start > from {
            assert(tail.skip(1) =~= digits);
        }
    }
    if k == text.len() {
        return None;
    }
    let mut value: u64 = 0;
    while k < text.len()
        invariant
            start <= k <= text.len(),
            start < text.len(),
            2 <= radix <= 36,
            digits == text@.skip(start as int),
            tail == text@.skip(from as int),
            digits == if tail.len() > 0 && tail[0] == '+' {
                tail.skip(1)
            } else {
                tail
            },
            number_value(digits.take(k - start), radix as int) == Some(value as int),
        decreases text.len() - k,
    {
        let ghost p = k - start;
        proof {
            assert(digits.take(p + 1).drop_last() =~= digits.take(p));
            assert(digits.take(p + 1).last() == text@[k as int]);
            if number_value(digits, radix as int) is Some {
                lemma_number_prefix(digits, radix as int, p + 1);
            }
        }
        let d = match to_digit(text[k], radix) {
            Some(d) => d,
            None => {
                return None;
            },
        };
        let scaled = match value.checked_mul(radix as u64) {
            Some(scaled) => scaled,
            None => {
                return None;
            },
        };
        value = match scaled.checked_add(d as u64) {
            Some(sum) => sum,
            None => {
                return None;
            },
        };
        k += 1;
    }
    proof {
        assert(digits.take(k - start) =~= digits);
    }
    Some(value)
}

} // verus!
