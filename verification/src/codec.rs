use vstd::prelude::*;

verus! {

// ---------------------------------------------------------------------------
// base64url (no padding)
// ---------------------------------------------------------------------------

/// What base64's `URL_SAFE_NO_PAD` engine decodes a given text to, or `None`
/// where it rejects the text. The result depends on the text alone.
pub uninterp spec fn b64url_decoded(s: Seq<char>) -> Option<Seq<u8>>;

/// Relies on base64's `Engine::decode` with the `URL_SAFE_NO_PAD` engine:
/// decoding is a pure function of the input text, succeeding exactly on
/// well-formed unpadded base64url input.
#[verifier::external_body]
pub fn b64url_decode(s: &str) -> (r: Option<Vec<u8>>)
    ensures
        r is Some <==> b64url_decoded(s@) is Some,
        r is Some ==> r.unwrap()@ == b64url_decoded(s@).unwrap(),
{
    base64::Engine::decode(&base64::engine::general_purpose::URL_SAFE_NO_PAD, s).ok()
}

/// The first index at or after `from` holding `c`, or -1.
pub open spec fn find_char(s: Seq<char>, c: char, from: int) -> int
    decreases s.len() - from,
{
    if from < 0 || from >= s.len() {
        -1
    } else if s[from] == c {
        from
    } else {
        find_char(s, c, from + 1)
    }
}

pub proof fn lemma_find_char_skip(s: Seq<char>, c: char, from: int, i: int)
    requires
        0 <= from <= i <= s.len(),
        forall|j: int| from <= j < i ==> s[j] != c,
    ensures
        find_char(s, c, from) == find_char(s, c, i),
    decreases i - from,
{
    if from < i {
        lemma_find_char_skip(s, c, from + 1, i);
    }
}

pub proof fn lemma_find_char_finds(s: Seq<char>, c: char, from: int, j: int)
    requires
        0 <= from <= j < s.len(),
        s[j] == c,
    ensures
        0 <= find_char(s, c, from) <= j,
    decreases j - from,
{
    if s[from] != c {
        lemma_find_char_finds(s, c, from + 1, j);
    }
}

// ---------------------------------------------------------------------------
// decimal integers
// ---------------------------------------------------------------------------

pub open spec fn is_digit(c: char) -> bool {
    '0' <= c && c <= '9'
}

pub open spec fn digit_val(c: char) -> int {
    c as int - '0' as int
}

pub open spec fn is_digit_seq(s: Seq<char>) -> bool {
    forall|i: int| 0 <= i < s.len() ==> is_digit(#[trigger] s[i])
}

/// The value of a sequence of decimal digits, most significant first.
pub open spec fn digit_seq_val(s: Seq<char>) -> int
    decreases s.len(),
{
    if s.len() == 0 {
        0
    } else {
        digit_seq_val(s.drop_last()) * 10 + digit_val(s.last())
    }
}

/// What `str::parse::<i64>` accepts: an optional leading `+` or `-` followed
/// by one or more decimal digits, denoting a value within the range of `i64`.
pub open spec fn spec_parse_i64(s: Seq<char>) -> Option<int> {
    let ds = if s.len() > 0 && (s[0] == '-' || s[0] == '+') {
        s.drop_first()
    } else {
        s
    };
    let neg = s.len() > 0 && s[0] == '-';
    if ds.len() == 0 || !is_digit_seq(ds) {
        None
    } else {
        let v = if neg {
            -digit_seq_val(ds)
        } else {
            digit_seq_val(ds)
        };
        if i64::MIN <= v <= i64::MAX {
            Some(v)
        } else {
            None
        }
    }
}

/// Relies on `str::parse::<i64>`: it accepts an optional sign followed by one
/// or more decimal digits and fails on any other text or on a value outside
/// the range of `i64`.
#[verifier::external_body]
pub fn parse_i64(s: &str) -> (r: Option<i64>)
    ensures
        r is Some <==> spec_parse_i64(s@) is Some,
        r is Some ==> r.unwrap() as int == spec_parse_i64(s@).unwrap(),
{
    s.parse::<i64>().ok()
}

pub open spec fn digit_char(d: int) -> char {
    if d == 0 {
        '0'
    } else if d == 1 {
        '1'
    } else if d == 2 {
        '2'
    } else if d == 3 {
        '3'
    } else if d == 4 {
        '4'
    } else if d == 5 {
        '5'
    } else if d == 6 {
        '6'
    } else if d == 7 {
        '7'
    } else if d == 8 {
        '8'
    } else {
        '9'
    }
}

/// The decimal representation of a non-negative integer, most significant
/// digit first, without leading zeros.
pub open spec fn spec_u64_string(n: int) -> Seq<char>
    decreases n,
{
    if n <= 9 {
        seq![digit_char(n)]
    } else {
        spec_u64_string(n / 10).push(digit_char(n % 10))
    }
}

/// Relies on `u64::to_string`: the result is the decimal representation of
/// the value, most significant digit first, with no sign, no separators and
/// no leading zeros.
#[verifier::external_body]
pub fn u64_to_string(n: u64) -> (r: String)
    ensures
        r@ == spec_u64_string(n as int),
{
    n.to_string()
}

} // verus!
