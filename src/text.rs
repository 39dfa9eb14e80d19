//! Character-level scanning of kernel log text: case folding, signature search,
//! whitespace tokens and decimal numbers.

use vstd::prelude::*;

verus! {

/// The characters of Unicode's `White_Space` property.
pub open spec fn whitespace(c: char) -> bool {
    let u = c as u32;
    ||| 0x09 <= u <= 0x0D
    ||| u == 0x20
    ||| u == 0x85
    ||| u == 0xA0
    ||| u == 0x1680
    ||| 0x2000 <= u <= 0x200A
    ||| u == 0x2028
    ||| u == 0x2029
    ||| u == 0x202F
    ||| u == 0x205F
    ||| u == 0x3000
}

/// The characters that `char::is_numeric` accepts (Unicode `Nd`, `Nl`, `No`).
pub uninterp spec fn numeric(c: char) -> bool;

/// The text that `str::to_lowercase` produces from `s`.
pub uninterp spec fn lower_of(s: Seq<char>) -> Seq<char>;

/// Whether `c` is a `White_Space` character.
pub fn is_whitespace_char(c: char) -> (r: bool)
    ensures
        r == whitespace(c),
{
    let u = c as u32;
    (0x09 <= u && u <= 0x0D) || u == 0x20 || u == 0x85 || u == 0xA0 || u == 0x1680
        || (0x2000 <= u && u <= 0x200A) || u == 0x2028 || u == 0x2029 || u == 0x202F
        || u == 0x205F || u == 0x3000
}

/// Relies on `char::is_numeric`: the answer depends on the character alone, and
/// among ASCII characters exactly the digits are numeric.
#[verifier::external_body]
pub(crate) fn is_numeric_char(c: char) -> (r: bool)
    ensures
        r == numeric(c),
        (c as u32) < 0x80 ==> (r <==> ('0' <= c && c <= '9')),
{
    c.is_numeric()
}

/// Relies on `str::to_lowercase`: the result depends on the text alone.
#[verifier::external_body]
pub(crate) fn lowercase(s: &str) -> (r: String)
    ensures
        r@ == lower_of(s@),
{
    s.to_lowercase()
}

/// Relies on `String::push`: appends one character at the end.
#[verifier::external_body]
pub(crate) fn push_char(s: &mut String, c: char)
    ensures
        final(s)@ == old(s)@.push(c),
{
    s.push(c)
}

/// The characters of `s`, in order.
pub fn chars_of(s: &str) -> (r: Vec<char>)
    ensures
        r@ == s@,
{
    let n = s.unicode_len();
    let mut out: Vec<char> = Vec::new();
    let mut i: usize = 0;
    while i < n
        invariant
            n == s@.len(),
            i <= n,
            out@ == s@.subrange(0, i as int),
        decreases n - i,
    {
        out.push(s.get_char(i));
        i = i + 1;
    }
    assert(out@ =~= s@);
    out
}

/// `pat` occurs in `s` as a contiguous run starting at `i`.
pub open spec fn occurs_at(s: Seq<char>, pat: Seq<char>, i: int) -> bool {
    0 <= i && i + pat.len() <= s.len() && s.subrange(i, i + pat.len()) == pat
}

/// `pat` occurs somewhere in `s`.
pub open spec fn contains_seq(s: Seq<char>, pat: Seq<char>) -> bool {
    exists|i: int| occurs_at(s, pat, i)
}

fn matches_at(s: &Vec<char>, pat: &Vec<char>, i: usize) -> (r: bool)
    requires
        i + pat@.len() <= s@.len(),
    ensures
        r == occurs_at(s@, pat@, i as int),
{
    let n = s.len();
    let mut k: usize = 0;
    while k < pat.len()
        invariant
            i + pat@.len() <= s@.len(),
            n == s@.len(),
            k <= pat@.len(),
            forall|j: int| 0 <= j < k ==> s@[i + j] == pat@[j],
        decreases pat@.len() - k,
    {
        if s[i + k] != pat[k] {
            assert(s@.subrange(i as int, i + pat@.len())[k as int] != pat@[k as int]);
            return false;
        }
        k = k + 1;
    }
    assert(s@.subrange(i as int, i + pat@.len()) =~= pat@);
    true
}

/// Whether `pat` occurs in `s`.
pub fn contains_chars(s: &Vec<char>, pat: &Vec<char>) -> (r: bool)
    ensures
        r == contains_seq(s@, pat@),
{
    if pat.len() > s.len() {
        return false;
    }
    let last = s.len() - pat.len();
    let mut i: usize = 0;
    loop
        invariant
            i <= last,
            last == s@.len() - pat@.len(),
            forall|j: int| 0 <= j < i ==> !occurs_at(s@, pat@, j),
        decreases last - i,
    {
        if matches_at(s, pat, i) {
            return true;
        }
        if i == last {
            assert forall|j: int| !occurs_at(s@, pat@, j) by {
                if 0 <= j && j + pat@.len() <= s@.len() {
                    assert(j <= last);
                }
            }
            return false;
        }
        i = i + 1;
    }
}


/// `s[a..b]` is a maximal run of non-whitespace characters of `s`.
pub open spec fn is_token(s: Seq<char>, a: int, b: int) -> bool {
    &&& 0 <= a < b <= s.len()
    &&& (a == 0 || whitespace(s[a - 1]))
    &&& (b == s.len() || whitespace(s[b]))
    &&& forall|k: int| a <= k < b ==> !whitespace(#[trigger] s[k])
}

/// Every character of `s[a..b]` is numeric.
pub open spec fn all_numeric(s: Seq<char>, a: int, b: int) -> bool {
    forall|k: int| a <= k < b ==> numeric(#[trigger] s[k])
}

/// `s[a..b]` is a token made of numeric characters only.
pub open spec fn is_numeric_token(s: Seq<char>, a: int, b: int) -> bool {
    is_token(s, a, b) && all_numeric(s, a, b)
}

/// `s[a..b]` is the numeric token of `s` that starts before any other.
pub open spec fn is_first_numeric_token(s: Seq<char>, a: int, b: int) -> bool {
    &&& is_numeric_token(s, a, b)
    &&& forall|a2: int, b2: int| a2 < a ==> !#[trigger] is_numeric_token(s, a2, b2)
}

/// A token is determined by where it starts.
pub proof fn lemma_token_end_unique(s: Seq<char>, a: int, b1: int, b2: int)
    requires
        is_token(s, a, b1),
        is_token(s, a, b2),
    ensures
        b1 == b2,
{
    if b1 < b2 {
        assert(!whitespace(s[b1]));
    } else if b2 < b1 {
        assert(!whitespace(s[b2]));
    }
}

/// The first whitespace-delimited token of `s` that consists of numeric characters
/// only, as a range of positions; later tokens are not looked at.
pub fn first_numeric_token(s: &Vec<char>) -> (r: Option<(usize, usize)>)
    ensures
        match r {
            Some((a, b)) => is_first_numeric_token(s@, a as int, b as int),
            None => forall|a: int, b: int| !#[trigger] is_numeric_token(s@, a, b),
        },
{
    let n = s.len();
    let mut i: usize = 0;
    let mut in_token = false;
    let mut start: usize = 0;
    let mut all_num = true;
    while i < n
        invariant
            n == s@.len(),
            i <= n,
            in_token ==> {
                &&& start < i
                &&& (start == 0 || whitespace(s@[start - 1]))
                &&& forall|k: int| start <= k < i ==> !whitespace(#[trigger] s@[k])
                &&& all_num == all_numeric(s@, start as int, i as int)
            },
            !in_token ==> (i == 0 || whitespace(s@[i - 1])),
            forall|a2: int, b2: int|
                a2 < (if in_token { start as int } else { i as int }) ==> !#[trigger] is_numeric_token(s@, a2, b2),
        decreases n - i,
    {
        let c = s[i];
        if is_whitespace_char(c) {
            if in_token {
                assert(is_token(s@, start as int, i as int));
                if all_num {
                    return Some((start, i));
                }
                assert forall|a2: int, b2: int| a2 < i + 1 implies !#[trigger] is_numeric_token(s@, a2, b2) by {
                    if is_numeric_token(s@, a2, b2) && a2 >= start {
                        if a2 == start {
                            lemma_token_end_unique(s@, a2, b2, i as int);
                        } else if a2 < i {
                            assert(!whitespace(s@[a2 - 1]));
                        }
                    }
                }
            }
            in_token = false;
        } else {
            let d = is_numeric_char(c);
            if in_token {
                all_num = all_num && d;
            } else {
                in_token = true;
                start = i;
                all_num = d;
            }
        }
        i = i + 1;
    }
    if in_token {
        assert(is_token(s@, start as int, n as int));
        if all_num {
            return Some((start, n));
        }
        assert forall|a2: int, b2: int| true implies !#[trigger] is_numeric_token(s@, a2, b2) by {
            if is_numeric_token(s@, a2, b2) && a2 >= start {
                if a2 == start {
                    lemma_token_end_unique(s@, a2, b2, n as int);
                } else {
                    assert(!whitespace(s@[a2 - 1]));
                }
            }
        }
    }
    None
}

/// Whether every character of `s` is numeric (true of the empty string).
pub fn is_string_numeric(s: String) -> (r: bool)
    ensures
        r == all_numeric(s@, 0, s@.len() as int),
{
    let cs = chars_of(s.as_str());
    let mut i: usize = 0;
    while i < cs.len()
        invariant
            cs@ == s@,
            i <= cs@.len(),
            all_numeric(s@, 0, i as int),
        decreases cs@.len() - i,
    {
        if !is_numeric_char(cs[i]) {
            return false;
        }
        i = i + 1;
    }
    true
}

/// `c` is one of the ASCII digits `0` to `9`.
pub open spec fn is_digit(c: char) -> bool {
    '0' <= c && c <= '9'
}

/// Every character of `s` is an ASCII digit.
pub open spec fn all_digits(s: Seq<char>) -> bool {
    forall|k: int| 0 <= k < s.len() ==> is_digit(#[trigger] s[k])
}

/// The number that the ASCII digits `s` write in base ten.
pub open spec fn digits_value(s: Seq<char>) -> nat
    decreases s.len(),
{
    if s.len() == 0 {
        0
    } else {
        digits_value(s.drop_last()) * 10 + ((s.last() as u32 - '0' as u32) as nat)
    }
}

/// The number that `s[from..to]` writes in decimal, where that text is one or
/// more ASCII digits and the number is at most `limit`.
pub fn decimal_value(s: &Vec<char>, from: usize, to: usize, limit: u64) -> (r: Option<u64>)
    requires
        from <= to <= s@.len(),
    ensures
        r is Some <==> {
            &&& from < to
            &&& all_digits(s@.subrange(from as int, to as int))
            &&& digits_value(s@.subrange(from as int, to as int)) <= limit
        },
        r matches Some(v) ==> v == digits_value(s@.subrange(from as int, to as int)),
{
    if from == to {
        return None;
    }
    let mut acc: u128 = 0;
    let mut i: usize = from;
    while i < to
        invariant
            from <= i <= to <= s@.len(),
            all_digits(s@.subrange(from as int, i as int)),
            acc == if digits_value(s@.subrange(from as int, i as int)) <= limit {
                digits_value(s@.subrange(from as int, i as int))
            } else {
                limit as nat + 1
            },
        decreases to - i,
    {
        let c = s[i];
        if c < '0' || c > '9' {
            assert(s@.subrange(from as int, to as int)[i - from] == c);
            return None;
        }
        let ghost prev = s@.subrange(from as int, i as int);
        let ghost next = s@.subrange(from as int, i + 1);
        assert(next.drop_last() =~= prev);
        let d = (c as u32 - '0' as u32) as u128;
        if acc <= limit as u128 {
            acc = acc * 10 + d;
            if acc > limit as u128 {
                acc = limit as u128 + 1;
            }
        }
        i = i + 1;
        assert(all_digits(next)) by {
            assert forall|k: int| 0 <= k < next.len() implies is_digit(#[trigger] next[k]) by {
                if k < prev.len() {
                    assert(next[k] == prev[k]);
                }
            }
        }
    }
    if acc > limit as u128 {
        None
    } else {
        Some(acc as u64)
    }
}

} // verus!
