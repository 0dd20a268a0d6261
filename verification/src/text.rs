//! Character-level text helpers: decimal rendering and parsing of unsigned
//! integers, Unicode whitespace trimming and Unix path joining.
use vstd::prelude::*;

verus! {

/// Converts a string slice into its characters.
pub fn str_chars(s: &str) -> (v: Vec<char>)
    ensures
        v@ == s@,
{
    let mut v: Vec<char> = Vec::new();
    for c in it: s.chars()
        invariant
            it.seq() == s@,
            v@ == it.seq().take(it.index() as int),
    {
        v.push(c);
    }
    v
}

/// `String::push`: appends one character.
#[verifier::external_body]
fn string_push(s: &mut String, c: char)
    ensures
        final(s)@ == old(s)@.push(c),
{
    s.push(c);
}

/// Builds a string from a slice of characters.
pub fn string_from_chars(v: &[char]) -> (s: String)
    ensures
        s@ == v@,
{
    let mut s = String::new();
    let mut i: usize = 0;
    while i < v.len()
        invariant
            i <= v@.len(),
            s@ == v@.take(i as int),
        decreases v@.len() - i,
    {
        string_push(&mut s, v[i]);
        i = i + 1;
        assert(v@.take(i as int) == v@.take(i - 1).push(v@[i - 1]));
    }
    assert(v@.take(v@.len() as int) == v@);
    s
}

/// Appends every character of `src` to `dst`.
pub fn push_chars(dst: &mut Vec<char>, src: &[char])
    ensures
        final(dst)@ == old(dst)@ + src@,
{
    let mut i: usize = 0;
    while i < src.len()
        invariant
            i <= src@.len(),
            dst@ == old(dst)@ + src@.subrange(0, i as int),
        decreases src@.len() - i,
    {
        dst.push(src[i]);
        i = i + 1;
        assert(src@.subrange(0, i as int) == src@.subrange(0, i - 1).push(src@[i - 1]));
    }
    assert(src@.subrange(0, src@.len() as int) == src@);
}

/// Concatenation of two character sequences into a fresh vector.
pub fn concat_chars(a: &[char], b: &[char]) -> (v: Vec<char>)
    ensures
        v@ == a@ + b@,
{
    let mut v: Vec<char> = Vec::new();
    push_chars(&mut v, a);
    push_chars(&mut v, b);
    assert(Seq::<char>::empty() + a@ == a@);
    v
}

/// The ASCII decimal digit for `d`, which must be below ten.
pub open spec fn digit_char(d: nat) -> char {
    (d + 48) as char
}

/// Whether `c` is an ASCII decimal digit.
pub open spec fn is_digit(c: char) -> bool {
    '0' <= c && c <= '9'
}

/// The numeric value of an ASCII decimal digit.
pub open spec fn digit_value(c: char) -> nat {
    (c as nat - 48) as nat
}

/// The canonical decimal rendering of `n`: no sign, no leading zeros.
pub open spec fn decimal(n: nat) -> Seq<char>
    decreases n,
{
    if n < 10 {
        seq![digit_char(n)]
    } else {
        decimal(n / 10).push(digit_char(n % 10))
    }
}

/// The value of a sequence of decimal digits, most significant first.
pub open spec fn digits_value(s: Seq<char>) -> nat
    decreases s.len(),
{
    if s.len() == 0 {
        0
    } else {
        digits_value(s.drop_last()) * 10 + digit_value(s.last())
    }
}

/// Whether every character of `s` is a decimal digit.
pub open spec fn all_digits(s: Seq<char>) -> bool {
    forall|i: int| 0 <= i < s.len() ==> is_digit(#[trigger] s[i])
}

/// The digits that `str::parse` reads for an unsigned integer: a single
/// leading `+` is dropped when something follows it.
pub open spec fn unsigned_digits(s: Seq<char>) -> Seq<char> {
    if s.len() > 1 && s[0] == '+' {
        s.drop_first()
    } else {
        s
    }
}

/// What `str::parse` yields for an unsigned integer type whose largest value
/// is `max`: the value when the text is an optional `+` followed by at least
/// one decimal digit and the value does not exceed `max`.
pub open spec fn parse_unsigned(s: Seq<char>, max: nat) -> Option<nat> {
    let d = unsigned_digits(s);
    if d.len() > 0 && all_digits(d) && digits_value(d) <= max {
        Some(digits_value(d))
    } else {
        None
    }
}

proof fn lemma_digits_value_monotone(s: Seq<char>, k: int)
    requires
        0 <= k <= s.len(),
        all_digits(s),
    ensures
        digits_value(s.subrange(0, k)) <= digits_value(s),
    decreases s.len() - k,
{
    if k < s.len() {
        let t = s.subrange(0, k + 1);
        assert(t.drop_last() == s.subrange(0, k));
        assert(is_digit(s[k]));
        lemma_digits_value_monotone(s, k + 1);
    } else {
        assert(s.subrange(0, k) == s);
    }
}

/// Decimal characters of `n`.
pub fn decimal_chars(n: u64) -> (v: Vec<char>)
    ensures
        v@ == decimal(n as nat),
    decreases n,
{
    let d: u8 = (n % 10) as u8;
    let c: char = (d + 48u8) as char;
    assert(c == digit_char((n % 10) as nat));
    if n < 10 {
        let mut v: Vec<char> = Vec::new();
        v.push(c);
        assert(v@ == seq![digit_char(n as nat)]);
        v
    } else {
        let mut v = decimal_chars(n / 10);
        v.push(c);
        v
    }
}

/// Renders `n` in decimal, as `n.to_string()` does.
pub fn u64_to_string(n: u64) -> (s: String)
    ensures
        s@ == decimal(n as nat),
{
    let v = decimal_chars(n);
    string_from_chars(v.as_slice())
}

/// Why `str::parse` refuses text as an unsigned integer: the kinds of its
/// `ParseIntError`.
#[derive(Debug, Clone, Copy, PartialEq, Eq, Structural)]
pub enum IntParseError {
    /// The text is empty.
    Empty,
    /// A character is not a digit (a lone `+` counts as one).
    InvalidDigit,
    /// The value is larger than the type holds.
    PosOverflow,
}

impl IntParseError {
    pub open spec fn spec_message(&self) -> Seq<char> {
        match self {
            IntParseError::Empty => "cannot parse integer from empty string"@,
            IntParseError::InvalidDigit => "invalid digit found in string"@,
            IntParseError::PosOverflow => "number too large to fit in target type"@,
        }
    }

    /// The message `ParseIntError` gives for this kind.
    pub fn message(&self) -> (s: String)
        ensures
            s@ == self.spec_message(),
    {
        let v = match self {
            IntParseError::Empty => str_chars("cannot parse integer from empty string"),
            IntParseError::InvalidDigit => str_chars("invalid digit found in string"),
            IntParseError::PosOverflow => str_chars("number too large to fit in target type"),
        };
        string_from_chars(v.as_slice())
    }
}

/// The error found when the digits `d` are read from position `i` on, with
/// values up to `max`: the first character that is not a digit, or the
/// first digit that takes the value read so far above `max`.
pub open spec fn scan_error(d: Seq<char>, i: int, max: nat) -> IntParseError
    decreases d.len() - i,
{
    if i < 0 || i >= d.len() {
        IntParseError::InvalidDigit
    } else if !is_digit(d[i]) {
        IntParseError::InvalidDigit
    } else if digits_value(d.subrange(0, i + 1)) > max {
        IntParseError::PosOverflow
    } else {
        scan_error(d, i + 1, max)
    }
}

/// The error `str::parse` reports for text that is not an unsigned integer
/// of at most `max`: `Empty` for empty text, else what reading it from the
/// left first runs into.
pub open spec fn parse_error(s: Seq<char>, max: nat) -> IntParseError {
    if s.len() == 0 {
        IntParseError::Empty
    } else {
        scan_error(unsigned_digits(s), 0, max)
    }
}

/// Parses the characters as `str::parse` does for an unsigned integer type
/// whose largest value is `max`, with the error it reports.
pub fn parse_unsigned_checked(s: &[char], max: u64) -> (r: Result<u64, IntParseError>)
    ensures
        match parse_unsigned(s@, max as nat) {
            Some(v) => r == Ok::<u64, IntParseError>(v as u64),
            None => r == Err::<u64, IntParseError>(parse_error(s@, max as nat)),
        },
{
    let start: usize = if s.len() > 1 && s[0] == '+' { 1 } else { 0 };
    let ghost d = unsigned_digits(s@);
    assert(d == s@.subrange(start as int, s@.len() as int));
    if start >= s.len() {
        return Err(IntParseError::Empty);
    }
    let mut value: u64 = 0;
    let mut i: usize = start;
    while i < s.len()
        invariant
            start <= i <= s@.len(),
            d == s@.subrange(start as int, s@.len() as int),
            d == unsigned_digits(s@),
            all_digits(s@.subrange(start as int, i as int)),
            value as nat == digits_value(s@.subrange(start as int, i as int)),
            value <= max,
            scan_error(d, 0, max as nat) == scan_error(d, i - start, max as nat),
        decreases s@.len() - i,
    {
        let c = s[i];
        let ghost prefix = s@.subrange(start as int, i as int);
        let ghost next = s@.subrange(start as int, i + 1);
        assert(next.drop_last() == prefix);
        assert(next.last() == c);
        if !('0' <= c && c <= '9') {
            assert(d[i - start] == c);
            assert(!is_digit(d[i - start]));
            return Err(IntParseError::InvalidDigit);
        }
        let digit: u64 = (c as u32 - 48) as u64;
        assert(digit as nat == digit_value(c));
        assert forall|j: int| 0 <= j < next.len() implies is_digit(#[trigger] next[j]) by {
            if j < prefix.len() {
                assert(next[j] == prefix[j]);
            }
        }
        if digit > max || value > (max - digit) / 10 {
            // The value already read exceeds the limit once this digit joins it.
            assert(digits_value(next) == value * 10 + digit);
            assert(digits_value(next) > max) by (nonlinear_arith)
                requires
                    digits_value(next) == value * 10 + digit,
                    digit > max || value > (max - digit) / 10,
            {
            }
            proof {
                assert(d.subrange(0, (i + 1 - start) as int) == next);
                if all_digits(d) {
                    lemma_digits_value_monotone(d, (i + 1 - start) as int);
                }
            }
            return Err(IntParseError::PosOverflow);
        }
        assert(value * 10 + digit <= max) by (nonlinear_arith)
            requires
                value <= (max - digit) / 10,
                digit <= 9,
                digit <= max,
        {
        }
        proof {
            assert(d.subrange(0, (i + 1 - start) as int) == next);
        }
        value = value * 10 + digit;
        i = i + 1;
    }
    assert(d == s@.subrange(start as int, i as int));
    Ok(value)
}

/// Parses the characters as `str::parse::<u64>` does, restricted to values
/// not above `max`.
pub fn parse_unsigned_chars(s: &[char], max: u64) -> (r: Option<u64>)
    ensures
        r matches Some(v) ==> parse_unsigned(s@, max as nat) == Some(v as nat),
        r is None ==> parse_unsigned(s@, max as nat) is None,
{
    match parse_unsigned_checked(s, max) {
        Ok(v) => Some(v),
        Err(_) => None,
    }
}

/// Whether `c` has the Unicode White_Space property, which is what
/// `char::is_whitespace` and `str::trim` go by.
pub open spec fn is_whitespace(c: char) -> bool {
    let u = c as u32;
    ||| 9 <= u <= 13
    ||| u == 32
    ||| u == 0x85
    ||| u == 0xa0
    ||| u == 0x1680
    ||| 0x2000 <= u <= 0x200a
    ||| u == 0x2028
    ||| u == 0x2029
    ||| u == 0x202f
    ||| u == 0x205f
    ||| u == 0x3000
}

/// `s` without its leading whitespace.
pub open spec fn trim_start(s: Seq<char>) -> Seq<char>
    decreases s.len(),
{
    if s.len() > 0 && is_whitespace(s[0]) {
        trim_start(s.drop_first())
    } else {
        s
    }
}

/// `s` without its trailing whitespace.
pub open spec fn trim_end(s: Seq<char>) -> Seq<char>
    decreases s.len(),
{
    if s.len() > 0 && is_whitespace(s.last()) {
        trim_end(s.drop_last())
    } else {
        s
    }
}

/// `s` without leading and trailing whitespace, as `str::trim` gives it.
pub open spec fn trimmed(s: Seq<char>) -> Seq<char> {
    trim_end(trim_start(s))
}

/// Whether `c` is Unicode whitespace.
pub fn char_is_whitespace(c: char) -> (b: bool)
    ensures
        b == is_whitespace(c),
{
    let u = c as u32;
    (9 <= u && u <= 13) || u == 32 || u == 0x85 || u == 0xa0 || u == 0x1680 || (0x2000 <= u
        && u <= 0x200a) || u == 0x2028 || u == 0x2029 || u == 0x202f || u == 0x205f || u
        == 0x3000
}

/// The characters of `s` with leading and trailing whitespace removed.
pub fn trim_chars(s: &[char]) -> (v: Vec<char>)
    ensures
        v@ == trimmed(s@),
{
    let n = s.len();
    let mut i: usize = 0;
    assert(s@.subrange(0, n as int) == s@);
    while i < n && char_is_whitespace(s[i])
        invariant
            n == s@.len(),
            i <= n,
            trim_start(s@) == trim_start(s@.subrange(i as int, n as int)),
        decreases n - i,
    {
        assert(s@.subrange(i as int, n as int).drop_first() == s@.subrange(i + 1, n as int));
        i = i + 1;
    }
    assert(trim_start(s@.subrange(i as int, n as int)) == s@.subrange(i as int, n as int));
    let ghost t = s@.subrange(i as int, n as int);
    let mut j: usize = n;
    while j > i && char_is_whitespace(s[j - 1])
        invariant
            n == s@.len(),
            i <= j <= n,
            t == s@.subrange(i as int, n as int),
            trim_end(t) == trim_end(s@.subrange(i as int, j as int)),
        decreases j,
    {
        let ghost u = s@.subrange(i as int, j as int);
        assert(u.last() == s@[j - 1]);
        assert(u.drop_last() == s@.subrange(i as int, j - 1));
        j = j - 1;
    }
    let ghost r = s@.subrange(i as int, j as int);
    assert(trim_end(r) == r) by {
        if r.len() > 0 {
            assert(r.last() == s@[j - 1]);
        }
    }
    let mut v: Vec<char> = Vec::new();
    let mut k: usize = i;
    while k < j
        invariant
            i <= k <= j <= n,
            n == s@.len(),
            v@ == s@.subrange(i as int, k as int),
        decreases j - k,
    {
        v.push(s[k]);
        k = k + 1;
        assert(v@ == s@.subrange(i as int, k as int));
    }
    v
}

/// The path that `PathBuf::push` leaves on Unix: an absolute component
/// replaces the path, a relative one is appended after a `/` unless the path
/// is empty or already ends in one.
pub open spec fn path_pushed(base: Seq<char>, comp: Seq<char>) -> Seq<char> {
    if comp.len() > 0 && comp[0] == '/' {
        comp
    } else if base.len() == 0 || base.last() == '/' {
        base + comp
    } else {
        base.push('/') + comp
    }
}

/// Pushes the component `comp` onto the Unix path `base`.
pub fn path_push(base: &[char], comp: &[char]) -> (v: Vec<char>)
    ensures
        v@ == path_pushed(base@, comp@),
{
    if comp.len() > 0 && comp[0] == '/' {
        concat_chars(&[], comp)
    } else if base.len() == 0 || base[base.len() - 1] == '/' {
        concat_chars(base, comp)
    } else {
        let mut v: Vec<char> = Vec::new();
        push_chars(&mut v, base);
        v.push('/');
        push_chars(&mut v, comp);
        assert(Seq::<char>::empty() + base@ == base@);
        v
    }
}

/// The concatenation of two strings.
pub fn concat_str(a: &str, b: &str) -> (s: String)
    ensures
        s@ == a@ + b@,
{
    let av = str_chars(a);
    let bv = str_chars(b);
    let v = concat_chars(av.as_slice(), bv.as_slice());
    string_from_chars(v.as_slice())
}

/// Parses text as `str::parse::<u32>` does.
pub fn parse_u32(s: &str) -> (r: Option<u32>)
    ensures
        r matches Some(v) ==> parse_unsigned(s@, u32::MAX as nat) == Some(v as nat),
        r is None ==> parse_unsigned(s@, u32::MAX as nat) is None,
{
    let chars = str_chars(s);
    match parse_unsigned_chars(chars.as_slice(), u32::MAX as u64) {
        Some(v) => Some(v as u32),
        None => None,
    }
}

/// Parses text as `str::parse::<u32>` does, with the error it reports.
pub fn parse_u32_checked(s: &str) -> (r: Result<u32, IntParseError>)
    ensures
        match parse_unsigned(s@, u32::MAX as nat) {
            Some(v) => r == Ok::<u32, IntParseError>(v as u32),
            None => r == Err::<u32, IntParseError>(parse_error(s@, u32::MAX as nat)),
        },
{
    let chars = str_chars(s);
    match parse_unsigned_checked(chars.as_slice(), u32::MAX as u64) {
        Ok(v) => Ok(v as u32),
        Err(e) => Err(e),
    }
}

/// Parses text as `str::parse::<u64>` does.
pub fn parse_u64(s: &str) -> (r: Option<u64>)
    ensures
        r matches Some(v) ==> parse_unsigned(s@, u64::MAX as nat) == Some(v as nat),
        r is None ==> parse_unsigned(s@, u64::MAX as nat) is None,
{
    let chars = str_chars(s);
    parse_unsigned_chars(chars.as_slice(), u64::MAX)
}

} // verus!
