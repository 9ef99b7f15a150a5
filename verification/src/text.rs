//! Text primitives over `Seq<char>` used by the matching and key-building logic.

use vstd::prelude::*;

verus! {

/// Whether two string slices hold the same characters (std's `str` equality).
#[verifier::external_body]
pub fn str_equal(a: &str, b: &str) -> (r: bool)
    ensures
        r == (a@ == b@),
{
    a == b
}

/// The characters of a string slice, in order.
pub fn chars_of(s: &str) -> (v: Vec<char>)
    ensures
        v@ == s@,
{
    broadcast use vstd::string::axiom_spec_iter;
    let mut v: Vec<char> = Vec::new();
    for c in it: s.chars()
        invariant
            it.seq() == s@,
            v@ == it.seq().take(it.index() as int),
    {
        v.push(c);
        assert(v@ =~= it.seq().take(it.index() + 1));
    }
    assert(v@ =~= s@);
    v
}

/// A `String` made of the given characters (std's `FromIterator<char>`).
#[verifier::external_body]
pub fn string_from_chars(v: &[char]) -> (s: String)
    ensures
        s@ == v@,
{
    v.iter().collect()
}

/// Appends one character (std's `String::push`).
#[verifier::external_body]
pub fn push_char(s: &mut String, c: char)
    ensures
        final(s)@ == old(s)@.push(c),
{
    s.push(c)
}

/// The pieces of `s` between occurrences of `sep`, as `str::split` yields them:
/// one more piece than there are separators, empty pieces kept.
pub open spec fn spec_split(s: Seq<char>, sep: char) -> Seq<Seq<char>>
    decreases s.len(),
{
    if s.len() == 0 {
        seq![Seq::<char>::empty()]
    } else {
        let rest = spec_split(s.drop_last(), sep);
        if s.last() == sep {
            rest.push(Seq::<char>::empty())
        } else {
            rest.update(rest.len() - 1, rest.last().push(s.last()))
        }
    }
}

pub proof fn lemma_split_nonempty(s: Seq<char>, sep: char)
    ensures
        spec_split(s, sep).len() >= 1,
    decreases s.len(),
{
    if s.len() > 0 {
        lemma_split_nonempty(s.drop_last(), sep);
    }
}

/// Splits `s` at every `sep`.
pub fn split_chars(s: &Vec<char>, sep: char) -> (parts: Vec<Vec<char>>)
    ensures
        parts@.len() == spec_split(s@, sep).len(),
        forall|i: int| 0 <= i < parts@.len() ==> #[trigger] parts@[i]@ == spec_split(s@, sep)[i],
{
    let mut parts: Vec<Vec<char>> = Vec::new();
    parts.push(Vec::new());
    let mut i: usize = 0;
    while i < s.len()
        invariant
            i <= s@.len(),
            parts@.len() == spec_split(s@.subrange(0, i as int), sep).len(),
            forall|k: int|
                0 <= k < parts@.len() ==> #[trigger] parts@[k]@ == spec_split(
                    s@.subrange(0, i as int),
                    sep,
                )[k],
        decreases s@.len() - i,
    {
        let ghost prev = s@.subrange(0, i as int);
        let ghost next = s@.subrange(0, i + 1);
        assert(next.drop_last() =~= prev);
        assert(next.last() == s@[i as int]);
        proof {
            lemma_split_nonempty(prev, sep);
        }
        let c = s[i];
        if c == sep {
            parts.push(Vec::new());
        } else {
            let last = parts.len() - 1;
            let mut piece = parts[last].clone();
            piece.push(c);
            parts.set(last, piece);
        }
        i = i + 1;
    }
    assert(s@.subrange(0, s@.len() as int) =~= s@);
    parts
}

/// Whether `sub` occurs in `s` at position `i`.
pub open spec fn occurs_at(s: Seq<char>, sub: Seq<char>, i: int) -> bool {
    0 <= i && i + sub.len() <= s.len() && s.subrange(i, i + sub.len()) == sub
}

/// Whether `sub` occurs anywhere in `s` (`str::contains`).
pub open spec fn seq_contains(s: Seq<char>, sub: Seq<char>) -> bool {
    exists|i: int| occurs_at(s, sub, i)
}

fn matches_at(s: &Vec<char>, sub: &Vec<char>, i: usize) -> (r: bool)
    requires
        i + sub@.len() <= s@.len(),
    ensures
        r == (s@.subrange(i as int, i + sub@.len()) == sub@),
{
    let n = s.len();
    let mut j: usize = 0;
    while j < sub.len()
        invariant
            n == s@.len(),
            i + sub@.len() <= s@.len(),
            j <= sub@.len(),
            forall|k: int| 0 <= k < j ==> s@[i + k] == sub@[k],
        decreases sub@.len() - j,
    {
        if s[i + j] != sub[j] {
            assert(s@.subrange(i as int, i + sub@.len())[j as int] != sub@[j as int]);
            return false;
        }
        j = j + 1;
    }
    assert(s@.subrange(i as int, i + sub@.len()) =~= sub@);
    true
}

/// Whether `sub` occurs in `s`.
pub fn contains_chars(s: &Vec<char>, sub: &Vec<char>) -> (r: bool)
    ensures
        r == seq_contains(s@, sub@),
{
    if sub.len() > s.len() {
        return false;
    }
    if sub.len() == 0 {
        assert(s@.subrange(0, 0) =~= sub@);
        assert(occurs_at(s@, sub@, 0));
        return true;
    }
    let n = s.len();
    let last = n - sub.len();
    let mut i: usize = 0;
    while i <= last
        invariant
            n == s@.len(),
            sub@.len() >= 1,
            last + sub@.len() == s@.len(),
            i <= last + 1,
            forall|k: int| 0 <= k < i ==> !occurs_at(s@, sub@, k),
        decreases last + 1 - i,
    {
        if matches_at(s, sub, i) {
            assert(occurs_at(s@, sub@, i as int));
            return true;
        }
        i = i + 1;
    }
    assert forall|k: int| !occurs_at(s@, sub@, k) by {
        if 0 <= k && k + sub@.len() <= s@.len() {
            assert(k < i);
        }
    }
    false
}

/// ASCII lower-casing of one character (`char::to_ascii_lowercase`).
pub open spec fn ascii_lower(c: char) -> char {
    if 'A' <= c && c <= 'Z' {
        ((c as u32) + 32) as char
    } else {
        c
    }
}

pub fn to_ascii_lower_char(c: char) -> (r: char)
    ensures
        r == ascii_lower(c),
{
    if 'A' <= c && c <= 'Z' {
        let v: u32 = (c as u32) + 32;
        assert(v <= 0x7f);
        v as u8 as char
    } else {
        c
    }
}


pub open spec fn is_digit(c: char) -> bool {
    '0' <= c && c <= '9'
}

pub open spec fn digit_value(c: char) -> int {
    (c as int) - ('0' as int)
}

pub open spec fn all_digits(s: Seq<char>) -> bool {
    forall|i: int| 0 <= i < s.len() ==> is_digit(#[trigger] s[i])
}

/// The number that a run of decimal digits denotes.
pub open spec fn digits_value(s: Seq<char>) -> int
    decreases s.len(),
{
    if s.len() == 0 {
        0
    } else {
        digits_value(s.drop_last()) * 10 + digit_value(s.last())
    }
}

proof fn lemma_digits_value_nonneg(s: Seq<char>)
    requires
        all_digits(s),
    ensures
        digits_value(s) >= 0,
    decreases s.len(),
{
    if s.len() > 0 {
        assert(all_digits(s.drop_last()));
        lemma_digits_value_nonneg(s.drop_last());
        assert(is_digit(s[s.len() - 1]));
    }
}

proof fn lemma_digits_value_prefix(s: Seq<char>, k: int)
    requires
        all_digits(s),
        0 <= k <= s.len(),
    ensures
        digits_value(s.subrange(0, k)) <= digits_value(s),
    decreases s.len(),
{
    if k < s.len() {
        let t = s.drop_last();
        assert(all_digits(t));
        assert(t.subrange(0, k) =~= s.subrange(0, k));
        lemma_digits_value_prefix(t, k);
        lemma_digits_value_nonneg(t);
        assert(is_digit(s[s.len() - 1]));
    } else {
        assert(s.subrange(0, k) =~= s);
    }
}

/// The value of the digits `s[start..]` when they are all digits and the value fits a `u64`.
fn digits_to_u64(s: &Vec<char>, start: usize) -> (r: Option<u64>)
    requires
        start <= s@.len(),
    ensures
        r == (if all_digits(s@.subrange(start as int, s@.len() as int)) && digits_value(
            s@.subrange(start as int, s@.len() as int),
        ) <= u64::MAX {
            Some(digits_value(s@.subrange(start as int, s@.len() as int)) as u64)
        } else {
            None
        }),
{
    let ghost d = s@.subrange(start as int, s@.len() as int);
    let n = s.len();
    let mut value: u64 = 0;
    let mut i: usize = start;
    while i < n
        invariant
            n == s@.len(),
            start <= i <= n,
            d == s@.subrange(start as int, s@.len() as int),
            all_digits(s@.subrange(start as int, i as int)),
            value == digits_value(s@.subrange(start as int, i as int)),
        decreases n - i,
    {
        let ghost pre = s@.subrange(start as int, i as int);
        let ghost next = s@.subrange(start as int, i + 1);
        assert(next.drop_last() =~= pre);
        let c = s[i];
        if !('0' <= c && c <= '9') {
            assert(d[i - start] == c);
            assert(!all_digits(d));
            return None;
        }
        let digit: u64 = (c as u32 - '0' as u32) as u64;
        let wide: u128 = (value as u128) * 10 + (digit as u128);
        assert(next.last() == c);
        assert(all_digits(next));
        if wide > u64::MAX as u128 {
            proof {
                if all_digits(d) {
                    assert(d.subrange(0, i + 1 - start) =~= next);
                    lemma_digits_value_prefix(d, i + 1 - start);
                }
            }
            return None;
        }
        value = wide as u64;
        i = i + 1;
    }
    assert(s@.subrange(start as int, i as int) =~= d);
    Some(value)
}

/// `str::parse` of an unsigned integer: an optional `+`, then at least one digit.
pub open spec fn spec_parse_unsigned(s: Seq<char>) -> Option<int> {
    if s.len() == 0 || (s.len() == 1 && s[0] == '+') {
        None
    } else {
        let d = if s[0] == '+' { s.drop_first() } else { s };
        if all_digits(d) { Some(digits_value(d)) } else { None }
    }
}

/// `str::parse` of a signed integer: an optional `+` or `-`, then at least one digit.
pub open spec fn spec_parse_signed(s: Seq<char>) -> Option<int> {
    if s.len() == 0 || (s.len() == 1 && (s[0] == '+' || s[0] == '-')) {
        None
    } else {
        let d = if s[0] == '+' || s[0] == '-' { s.drop_first() } else { s };
        if all_digits(d) {
            Some(if s[0] == '-' { -digits_value(d) } else { digits_value(d) })
        } else {
            None
        }
    }
}

/// `s.parse::<u16>()`.
pub open spec fn spec_parse_u16(s: Seq<char>) -> Option<u16> {
    match spec_parse_unsigned(s) {
        Some(v) => if v <= u16::MAX { Some(v as u16) } else { None },
        None => None,
    }
}

/// `s.parse::<i64>()`.
pub open spec fn spec_parse_i64(s: Seq<char>) -> Option<i64> {
    match spec_parse_signed(s) {
        Some(v) => if i64::MIN <= v <= i64::MAX { Some(v as i64) } else { None },
        None => None,
    }
}

pub fn parse_u16(s: &Vec<char>) -> (r: Option<u16>)
    ensures
        r == spec_parse_u16(s@),
{
    if s.len() == 0 || (s.len() == 1 && s[0] == '+') {
        return None;
    }
    let start: usize = if s[0] == '+' { 1 } else { 0 };
    let ghost d = if s@[0] == '+' { s@.drop_first() } else { s@ };
    assert(s@.subrange(start as int, s@.len() as int) =~= d);
    proof {
        if all_digits(d) {
            lemma_digits_value_nonneg(d);
        }
    }
    assert(spec_parse_unsigned(s@) == (if all_digits(d) { Some(digits_value(d)) } else { None::<int> }));
    match digits_to_u64(s, start) {
        Some(v) => {
            if v <= u16::MAX as u64 {
                Some(v as u16)
            } else {
                None
            }
        },
        None => {
            proof {
                if all_digits(d) {
                    lemma_digits_value_nonneg(d);
                }
            }
            None
        },
    }
}

pub fn parse_i64(s: &Vec<char>) -> (r: Option<i64>)
    ensures
        r == spec_parse_i64(s@),
{
    if s.len() == 0 || (s.len() == 1 && (s[0] == '+' || s[0] == '-')) {
        return None;
    }
    let signed = s[0] == '+' || s[0] == '-';
    let negative = s[0] == '-';
    let start: usize = if signed { 1 } else { 0 };
    let ghost d = if signed { s@.drop_first() } else { s@ };
    assert(s@.subrange(start as int, s@.len() as int) =~= d);
    proof {
        if all_digits(d) {
            lemma_digits_value_nonneg(d);
        }
    }
    assert(spec_parse_signed(s@) == (if all_digits(d) {
        Some(if negative { -digits_value(d) } else { digits_value(d) })
    } else {
        None::<int>
    }));
    match digits_to_u64(s, start) {
        Some(v) => {
            if negative {
                if v <= 9223372036854775808u64 {
                    if v == 9223372036854775808u64 {
                        Some(i64::MIN)
                    } else {
                        Some(-(v as i64))
                    }
                } else {
                    None
                }
            } else if v <= i64::MAX as u64 {
                Some(v as i64)
            } else {
                None
            }
        },
        None => {
            proof {
                if all_digits(d) {
                    lemma_digits_value_nonneg(d);
                }
            }
            None
        },
    }
}

pub open spec fn digit_char(d: int) -> char {
    (48 + d) as char
}

/// The decimal spelling of a natural number, as `to_string` writes it.
pub open spec fn spec_decimal(n: nat) -> Seq<char>
    decreases n,
{
    if n < 10 {
        seq![digit_char(n as int)]
    } else {
        spec_decimal(n / 10).push(digit_char((n % 10) as int))
    }
}

/// The decimal spelling of an integer, with a leading `-` when negative.
pub open spec fn spec_signed_decimal(v: int) -> Seq<char> {
    if v < 0 {
        seq!['-'] + spec_decimal((-v) as nat)
    } else {
        spec_decimal(v as nat)
    }
}

fn digit_to_char(d: u64) -> (c: char)
    requires
        d < 10,
    ensures
        c == digit_char(d as int),
{
    ((48 + d) as u8) as char
}

/// The decimal digits of `n`.
pub fn u64_to_decimal(n: u64) -> (s: Vec<char>)
    ensures
        s@ == spec_decimal(n as nat),
    decreases n,
{
    if n < 10 {
        let mut v: Vec<char> = Vec::new();
        v.push(digit_to_char(n));
        v
    } else {
        let mut v = u64_to_decimal(n / 10);
        v.push(digit_to_char(n % 10));
        v
    }
}

/// The decimal spelling of a signed number.
pub fn i64_to_decimal(v: i64) -> (s: Vec<char>)
    ensures
        s@ == spec_signed_decimal(v as int),
{
    if v < 0 {
        let magnitude: u64 = if v == i64::MIN {
            9223372036854775808u64
        } else {
            (-v) as u64
        };
        let digits = u64_to_decimal(magnitude);
        let mut out: Vec<char> = Vec::new();
        out.push('-');
        let mut i: usize = 0;
        while i < digits.len()
            invariant
                i <= digits@.len(),
                out@ == seq!['-'] + digits@.subrange(0, i as int),
            decreases digits@.len() - i,
        {
            out.push(digits[i]);
            i = i + 1;
            assert(out@ =~= seq!['-'] + digits@.subrange(0, i as int));
        }
        assert(digits@.subrange(0, digits@.len() as int) =~= digits@);
        out
    } else {
        u64_to_decimal(v as u64)
    }
}


/// Position of the first `c` in `s`.
pub open spec fn find_char(s: Seq<char>, c: char) -> Option<int>
    decreases s.len(),
{
    if s.len() == 0 {
        None
    } else if s[0] == c {
        Some(0)
    } else {
        match find_char(s.drop_first(), c) {
            Some(i) => Some(i + 1),
            None => None,
        }
    }
}

proof fn lemma_find_char_found(s: Seq<char>, c: char, i: int)
    requires
        0 <= i < s.len(),
        s[i] == c,
        forall|k: int| 0 <= k < i ==> s[k] != c,
    ensures
        find_char(s, c) == Some(i),
    decreases i,
{
    if i > 0 {
        lemma_find_char_found(s.drop_first(), c, i - 1);
    }
}

proof fn lemma_find_char_absent(s: Seq<char>, c: char)
    requires
        forall|k: int| 0 <= k < s.len() ==> s[k] != c,
    ensures
        find_char(s, c).is_none(),
    decreases s.len(),
{
    if s.len() > 0 {
        lemma_find_char_absent(s.drop_first(), c);
    }
}

pub proof fn lemma_find_char_range(s: Seq<char>, c: char)
    ensures
        match find_char(s, c) {
            Some(i) => 0 <= i < s.len() && s[i] == c,
            None => forall|k: int| 0 <= k < s.len() ==> s[k] != c,
        },
    decreases s.len(),
{
    if s.len() > 0 {
        lemma_find_char_range(s.drop_first(), c);
        if s[0] != c {
            match find_char(s.drop_first(), c) {
                Some(i) => {},
                None => {
                    assert forall|k: int| 0 <= k < s.len() implies s[k] != c by {
                        if k > 0 {
                            assert(s.drop_first()[k - 1] == s[k]);
                        }
                    }
                },
            }
        }
    }
}

/// Index of the first `c` in `s`.
pub fn find_char_index(s: &Vec<char>, c: char) -> (r: Option<usize>)
    ensures
        match r {
            Some(i) => find_char(s@, c) == Some(i as int),
            None => find_char(s@, c).is_none(),
        },
{
    let mut i: usize = 0;
    while i < s.len()
        invariant
            i <= s@.len(),
            forall|k: int| 0 <= k < i ==> s@[k] != c,
        decreases s@.len() - i,
    {
        if s[i] == c {
            proof {
                lemma_find_char_found(s@, c, i as int);
            }
            return Some(i);
        }
        i = i + 1;
    }
    proof {
        lemma_find_char_absent(s@, c);
    }
    None
}

/// The characters `s[from..to]` as a new vector.
pub fn slice_chars(s: &Vec<char>, from: usize, to: usize) -> (r: Vec<char>)
    requires
        from <= to <= s@.len(),
    ensures
        r@ == s@.subrange(from as int, to as int),
{
    let mut r: Vec<char> = Vec::new();
    let mut i: usize = from;
    while i < to
        invariant
            from <= i <= to <= s@.len(),
            r@ == s@.subrange(from as int, i as int),
        decreases to - i,
    {
        r.push(s[i]);
        i = i + 1;
        assert(r@ =~= s@.subrange(from as int, i as int));
    }
    r
}

/// `a` followed by `b`.
pub fn concat_chars(a: &Vec<char>, b: &Vec<char>) -> (r: Vec<char>)
    ensures
        r@ == a@ + b@,
{
    let mut r = a.clone();
    let mut i: usize = 0;
    while i < b.len()
        invariant
            i <= b@.len(),
            r@ == a@ + b@.subrange(0, i as int),
        decreases b@.len() - i,
    {
        r.push(b[i]);
        i = i + 1;
        assert(r@ =~= a@ + b@.subrange(0, i as int));
    }
    assert(b@.subrange(0, b@.len() as int) =~= b@);
    r
}

/// Appends the characters of `b` to `a`.
pub fn append_chars(a: &mut Vec<char>, b: &Vec<char>)
    ensures
        final(a)@ == old(a)@ + b@,
{
    let mut i: usize = 0;
    while i < b.len()
        invariant
            i <= b@.len(),
            a@ == old(a)@ + b@.subrange(0, i as int),
        decreases b@.len() - i,
    {
        a.push(b[i]);
        i = i + 1;
        assert(a@ =~= old(a)@ + b@.subrange(0, i as int));
    }
    assert(b@.subrange(0, b@.len() as int) =~= b@);
}

/// Whether two character sequences are equal.
pub fn chars_equal(a: &Vec<char>, b: &Vec<char>) -> (r: bool)
    ensures
        r == (a@ == b@),
{
    if a.len() != b.len() {
        return false;
    }
    let mut i: usize = 0;
    while i < a.len()
        invariant
            a@.len() == b@.len(),
            i <= a@.len(),
            forall|k: int| 0 <= k < i ==> a@[k] == b@[k],
        decreases a@.len() - i,
    {
        if a[i] != b[i] {
            return false;
        }
        i = i + 1;
    }
    assert(a@ =~= b@);
    true
}

/// `bool`'s parse: exactly `true` or `false`.
pub open spec fn spec_parse_bool(s: Seq<char>) -> Option<bool> {
    if s == "true"@ {
        Some(true)
    } else if s == "false"@ {
        Some(false)
    } else {
        None
    }
}

pub fn parse_bool(s: &str) -> (r: Option<bool>)
    ensures
        r == spec_parse_bool(s@),
{
    if str_equal(s, "true") {
        Some(true)
    } else if str_equal(s, "false") {
        Some(false)
    } else {
        None
    }
}

/// ASCII lower-casing of every character (`str::to_ascii_lowercase`).
pub open spec fn lower_seq(s: Seq<char>) -> Seq<char> {
    s.map_values(|c: char| ascii_lower(c))
}

pub fn lower_chars(s: &Vec<char>) -> (r: Vec<char>)
    ensures
        r@ == lower_seq(s@),
{
    let mut r: Vec<char> = Vec::new();
    let mut i: usize = 0;
    while i < s.len()
        invariant
            i <= s@.len(),
            r@ == lower_seq(s@.subrange(0, i as int)),
        decreases s@.len() - i,
    {
        r.push(to_ascii_lower_char(s[i]));
        i = i + 1;
        assert(r@ =~= lower_seq(s@.subrange(0, i as int)));
    }
    assert(s@.subrange(0, s@.len() as int) =~= s@);
    r
}

/// Unicode `White_Space`, as `char::is_whitespace` decides it.
pub open spec fn is_white(c: char) -> bool {
    let v = c as u32;
    (0x9 <= v && v <= 0xd) || v == 0x20 || v == 0x85 || v == 0xa0 || v == 0x1680
        || (0x2000 <= v && v <= 0x200a) || v == 0x2028 || v == 0x2029 || v == 0x202f
        || v == 0x205f || v == 0x3000
}

pub fn is_white_char(c: char) -> (r: bool)
    ensures
        r == is_white(c),
{
    let v = c as u32;
    (0x9 <= v && v <= 0xd) || v == 0x20 || v == 0x85 || v == 0xa0 || v == 0x1680
        || (0x2000 <= v && v <= 0x200a) || v == 0x2028 || v == 0x2029 || v == 0x202f
        || v == 0x205f || v == 0x3000
}

/// Number of leading white-space characters.
pub open spec fn lead_white(s: Seq<char>) -> nat
    decreases s.len(),
{
    if s.len() > 0 && is_white(s[0]) {
        1 + lead_white(s.drop_first())
    } else {
        0
    }
}

/// Number of trailing white-space characters.
pub open spec fn trail_white(s: Seq<char>) -> nat
    decreases s.len(),
{
    if s.len() > 0 && is_white(s.last()) {
        1 + trail_white(s.drop_last())
    } else {
        0
    }
}

/// `s` without leading and trailing white space (`str::trim`).
pub open spec fn trim_seq(s: Seq<char>) -> Seq<char> {
    let a = lead_white(s) as int;
    let t = s.subrange(a, s.len() as int);
    t.subrange(0, t.len() - trail_white(t))
}

proof fn lemma_lead_white(s: Seq<char>)
    ensures
        lead_white(s) <= s.len(),
    decreases s.len(),
{
    if s.len() > 0 && is_white(s[0]) {
        lemma_lead_white(s.drop_first());
    }
}

proof fn lemma_trail_white(s: Seq<char>)
    ensures
        trail_white(s) <= s.len(),
    decreases s.len(),
{
    if s.len() > 0 && is_white(s.last()) {
        lemma_trail_white(s.drop_last());
    }
}

pub fn trim_chars(s: &Vec<char>) -> (r: Vec<char>)
    ensures
        r@ == trim_seq(s@),
{
    let mut a: usize = 0;
    proof {
        lemma_lead_white(s@);
    }
    assert(s@.subrange(0, s@.len() as int) =~= s@);
    while a < s.len() && is_white_char(s[a])
        invariant
            a <= s@.len(),
            lead_white(s@) == a + lead_white(s@.subrange(a as int, s@.len() as int)),
        decreases s@.len() - a,
    {
        let ghost t = s@.subrange(a as int, s@.len() as int);
        assert(t.drop_first() =~= s@.subrange(a + 1, s@.len() as int));
        a = a + 1;
    }
    assert(s@.subrange(a as int, s@.len() as int).len() == 0 || !is_white(s@.subrange(a as int, s@.len() as int)[0]));
    let t = slice_chars(s, a, s.len());
    let mut b: usize = t.len();
    proof {
        lemma_trail_white(t@);
    }
    assert(t@.subrange(0, t@.len() as int) =~= t@);
    while b > 0 && is_white_char(t[b - 1])
        invariant
            b <= t@.len(),
            trail_white(t@) == (t@.len() - b) + trail_white(t@.subrange(0, b as int)),
        decreases b,
    {
        let ghost u = t@.subrange(0, b as int);
        assert(u.drop_last() =~= t@.subrange(0, b - 1));
        b = b - 1;
    }
    slice_chars(&t, 0, b)
}

/// Whether `s` begins with `p`.
pub open spec fn starts_with(s: Seq<char>, p: Seq<char>) -> bool {
    p.len() <= s.len() && s.subrange(0, p.len() as int) == p
}

pub fn starts_with_chars(s: &Vec<char>, p: &Vec<char>) -> (r: bool)
    ensures
        r == starts_with(s@, p@),
{
    if p.len() > s.len() {
        return false;
    }
    let prefix = slice_chars(s, 0, p.len());
    chars_equal(&prefix, p)
}

/// ASCII upper-casing of one character (`char::to_ascii_uppercase`).
pub open spec fn ascii_upper(c: char) -> char {
    if 'a' <= c && c <= 'z' {
        ((c as u32) - 32) as char
    } else {
        c
    }
}

/// ASCII upper-casing of every character (`str::to_ascii_uppercase`).
pub open spec fn upper_seq(s: Seq<char>) -> Seq<char> {
    s.map_values(|c: char| ascii_upper(c))
}

pub fn upper_chars(s: &Vec<char>) -> (r: Vec<char>)
    ensures
        r@ == upper_seq(s@),
{
    let mut r: Vec<char> = Vec::new();
    let mut i: usize = 0;
    while i < s.len()
        invariant
            i <= s@.len(),
            r@ == upper_seq(s@.subrange(0, i as int)),
        decreases s@.len() - i,
    {
        let c = s[i];
        let u = if 'a' <= c && c <= 'z' {
            let v: u32 = (c as u32) - 32;
            v as u8 as char
        } else {
            c
        };
        r.push(u);
        i = i + 1;
        assert(r@ =~= upper_seq(s@.subrange(0, i as int)));
    }
    assert(s@.subrange(0, s@.len() as int) =~= s@);
    r
}

/// Bytes of one character in UTF-8.
pub open spec fn utf8_width(c: char) -> nat {
    let v = c as u32;
    if v < 0x80 {
        1
    } else if v < 0x800 {
        2
    } else if v < 0x10000 {
        3
    } else {
        4
    }
}

/// Bytes of a text in UTF-8.
pub open spec fn spec_utf8_len(s: Seq<char>) -> nat
    decreases s.len(),
{
    if s.len() == 0 {
        0
    } else {
        spec_utf8_len(s.drop_last()) + utf8_width(s.last())
    }
}

/// Length in bytes of a string slice (std's `str::len`).
#[verifier::external_body]
pub fn utf8_len(s: &str) -> (r: usize)
    ensures
        r == spec_utf8_len(s@),
{
    s.len()
}

/// What `String::from_utf8_lossy` reads from bytes.
pub uninterp spec fn spec_utf8_lossy(bytes: Seq<u8>) -> Seq<char>;

/// Bytes read as UTF-8 text, invalid sequences replaced (std's `String::from_utf8_lossy`).
/// The contract names the result; the decoding itself is std's.
#[verifier::external_body]
pub fn utf8_lossy(bytes: &[u8]) -> (r: String)
    ensures
        r@ == spec_utf8_lossy(bytes@),
{
    String::from_utf8_lossy(bytes).into_owned()
}

/// The first line of a text, as `str::lines` gives it: up to the first line feed, less a
/// carriage return before it; the whole text when there is no line feed.
pub open spec fn first_line(s: Seq<char>) -> Seq<char> {
    match find_char(s, '\n') {
        Some(i) => {
            let l = s.take(i);
            if l.len() > 0 && l.last() == '\r' {
                l.drop_last()
            } else {
                l
            }
        },
        None => s,
    }
}

pub fn first_line_chars(s: &Vec<char>) -> (r: Vec<char>)
    ensures
        r@ == first_line(s@),
{
    proof {
        lemma_find_char_range(s@, '\n');
    }
    match find_char_index(s, '\n') {
        Some(i) => {
            let l = slice_chars(s, 0, i);
            assert(l@ =~= s@.take(i as int));
            if l.len() > 0 && l[l.len() - 1] == '\r' {
                let r = slice_chars(&l, 0, l.len() - 1);
                assert(r@ =~= l@.drop_last());
                r
            } else {
                l
            }
        },
        None => slice_chars(s, 0, s.len()),
    }
}

/// Number of leading characters that are not white space.
pub open spec fn word_len(s: Seq<char>) -> nat
    decreases s.len(),
{
    if s.len() > 0 && !is_white(s[0]) {
        1 + word_len(s.drop_first())
    } else {
        0
    }
}

proof fn lemma_word_len(s: Seq<char>)
    ensures
        word_len(s) <= s.len(),
    decreases s.len(),
{
    if s.len() > 0 && !is_white(s[0]) {
        lemma_word_len(s.drop_first());
    }
}

/// The second white-space-separated word of a text (`split_whitespace().nth(1)`).
pub open spec fn second_word(s: Seq<char>) -> Option<Seq<char>> {
    let s1 = s.skip(lead_white(s) as int);
    let s2a = s1.skip(word_len(s1) as int);
    let s2 = s2a.skip(lead_white(s2a) as int);
    if s1.len() == 0 || s2.len() == 0 {
        None
    } else {
        Some(s2.take(word_len(s2) as int))
    }
}

fn skip_white(s: &Vec<char>) -> (r: Vec<char>)
    ensures
        r@ == s@.skip(lead_white(s@) as int),
{
    proof {
        lemma_lead_white(s@);
    }
    let mut a: usize = 0;
    assert(s@.subrange(0, s@.len() as int) =~= s@);
    while a < s.len() && is_white_char(s[a])
        invariant
            a <= s@.len(),
            lead_white(s@) == a + lead_white(s@.subrange(a as int, s@.len() as int)),
        decreases s@.len() - a,
    {
        let ghost t = s@.subrange(a as int, s@.len() as int);
        assert(t.drop_first() =~= s@.subrange(a + 1, s@.len() as int));
        a = a + 1;
    }
    slice_chars(s, a, s.len())
}

fn word_end(s: &Vec<char>) -> (r: usize)
    ensures
        r == word_len(s@),
        r <= s@.len(),
{
    proof {
        lemma_word_len(s@);
    }
    let mut a: usize = 0;
    assert(s@.subrange(0, s@.len() as int) =~= s@);
    while a < s.len() && !is_white_char(s[a])
        invariant
            a <= s@.len(),
            word_len(s@) == a + word_len(s@.subrange(a as int, s@.len() as int)),
        decreases s@.len() - a,
    {
        let ghost t = s@.subrange(a as int, s@.len() as int);
        assert(t.drop_first() =~= s@.subrange(a + 1, s@.len() as int));
        a = a + 1;
    }
    a
}

pub fn second_word_chars(s: &Vec<char>) -> (r: Option<Vec<char>>)
    ensures
        match r {
            Some(w) => second_word(s@) == Some(w@),
            None => second_word(s@).is_none(),
        },
{
    let s1 = skip_white(s);
    let e1 = word_end(&s1);
    let s2a = slice_chars(&s1, e1, s1.len());
    assert(s2a@ =~= s1@.skip(e1 as int));
    let s2 = skip_white(&s2a);
    if s1.len() == 0 || s2.len() == 0 {
        return None;
    }
    let e2 = word_end(&s2);
    let w = slice_chars(&s2, 0, e2);
    assert(w@ =~= s2@.take(e2 as int));
    Some(w)
}

} // verus!
