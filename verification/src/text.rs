//! Character-sequence utilities shared by the filters, parsers and message
//! builders: conversions between `str`/`String` and `Vec<char>`, the
//! substring predicates, decimal and hexadecimal rendering, and the line,
//! field and whitespace splitting that the request parsers rely on.
use vstd::prelude::*;

verus! {

broadcast use vstd::string::group_string_axioms;

// ---------------------------------------------------------------------------
// Conversions
// ---------------------------------------------------------------------------

/// The characters of `s`, in order.
pub fn str_to_chars(s: &str) -> (r: Vec<char>)
    ensures
        r@ == s@,
{
    let mut v: Vec<char> = Vec::new();
    let chars = s.chars();
    for c in it: chars
        invariant
            it.seq() == s@,
            v@ == it.seq().take(it.index() as int),
    {
        v.push(c);
    }
    v
}

/// Calls `String::push`; claims that the string afterwards is the old one
/// with `c` appended.
#[verifier::external_body]
pub(crate) fn push_char(s: &mut String, c: char)
    ensures
        final(s)@ == old(s)@.push(c),
{
    s.push(c);
}

/// A `String` holding exactly the characters of `v`.
pub fn chars_to_string(v: &[char]) -> (r: String)
    ensures
        r@ == v@,
{
    let mut s = String::new();
    let mut i: usize = 0;
    while i < v.len()
        invariant
            0 <= i <= v@.len(),
            s@ == v@.take(i as int),
        decreases v@.len() - i,
    {
        push_char(&mut s, v[i]);
        i = i + 1;
        assert(s@ == v@.take(i as int));
    }
    assert(v@.take(v@.len() as int) == v@);
    s
}

/// Appends all of `v` to `s`.
pub fn push_chars(s: &mut String, v: &[char])
    ensures
        final(s)@ == old(s)@ + v@,
{
    let ghost s0 = s@;
    let mut i: usize = 0;
    while i < v.len()
        invariant
            0 <= i <= v@.len(),
            s@ == s0 + v@.take(i as int),
        decreases v@.len() - i,
    {
        push_char(s, v[i]);
        i = i + 1;
        assert(s@ == s0 + v@.take(i as int));
    }
    assert(v@.take(v@.len() as int) == v@);
}

/// Appends the characters of `t` to `s`.
pub fn push_str(s: &mut String, t: &str)
    ensures
        final(s)@ == old(s)@ + t@,
{
    let v = str_to_chars(t);
    push_chars(s, v.as_slice());
}

/// A fresh `String` equal to `t`.
pub fn string_of(t: &str) -> (r: String)
    ensures
        r@ == t@,
{
    let mut s = String::new();
    push_str(&mut s, t);
    s
}

// ---------------------------------------------------------------------------
// Substring predicates
// ---------------------------------------------------------------------------

/// `p` starts at index `i` of `s`.
pub open spec fn occurs_at<T>(s: Seq<T>, p: Seq<T>, i: int) -> bool {
    0 <= i && i + p.len() <= s.len() && s.subrange(i, i + p.len()) == p
}

pub open spec fn starts_with<T>(s: Seq<T>, p: Seq<T>) -> bool {
    occurs_at(s, p, 0)
}

pub open spec fn ends_with<T>(s: Seq<T>, p: Seq<T>) -> bool {
    p.len() <= s.len() && occurs_at(s, p, s.len() - p.len())
}

pub open spec fn contains_seq<T>(s: Seq<T>, p: Seq<T>) -> bool {
    exists|i: int| occurs_at(s, p, i)
}

/// `i` is the first index at which `p` occurs in `s`.
pub open spec fn first_occurrence<T>(s: Seq<T>, p: Seq<T>, i: int) -> bool {
    occurs_at(s, p, i) && forall|j: int| 0 <= j < i ==> !occurs_at(s, p, j)
}

/// Index of the first occurrence of `c` in `s`, if any.
pub open spec fn index_of_char(s: Seq<char>, c: char) -> Option<int>
    decreases s.len(),
{
    if s.len() == 0 {
        None
    } else if s[0] == c {
        Some(0)
    } else {
        match index_of_char(s.drop_first(), c) {
            Some(i) => Some(i + 1),
            None => None,
        }
    }
}

pub(crate) proof fn lemma_index_of_char(s: Seq<char>, c: char)
    ensures
        match index_of_char(s, c) {
            Some(i) => 0 <= i < s.len() && s[i] == c && forall|j: int| 0 <= j < i ==> s[j] != c,
            None => forall|j: int| 0 <= j < s.len() ==> s[j] != c,
        },
    decreases s.len(),
{
    if s.len() > 0 {
        lemma_index_of_char(s.drop_first(), c);
        assert forall|j: int| 0 < j < s.len() implies s[j] == s.drop_first()[j - 1] by {}
    }
}

pub fn chars_occurs_at(s: &[char], p: &[char], i: usize) -> (r: bool)
    ensures
        r == occurs_at(s@, p@, i as int),
{
    if i > s.len() || p.len() > s.len() - i {
        return false;
    }
    let mut k: usize = 0;
    while k < p.len()
        invariant
            i + p.len() <= s.len(),
            0 <= k <= p@.len(),
            forall|j: int| 0 <= j < k ==> s@[i + j] == p@[j],
        decreases p@.len() - k,
    {
        if s[i + k] != p[k] {
            assert(s@.subrange(i as int, i + p@.len())[k as int] != p@[k as int]);
            return false;
        }
        k = k + 1;
    }
    assert(s@.subrange(i as int, i + p@.len()) =~= p@);
    true
}

pub fn chars_starts_with(s: &[char], p: &[char]) -> (r: bool)
    ensures
        r == starts_with(s@, p@),
{
    chars_occurs_at(s, p, 0)
}

pub fn chars_ends_with(s: &[char], p: &[char]) -> (r: bool)
    ensures
        r == ends_with(s@, p@),
{
    if p.len() > s.len() {
        false
    } else {
        chars_occurs_at(s, p, s.len() - p.len())
    }
}

/// First index at which `p` occurs in `s`.
pub fn chars_find(s: &[char], p: &[char]) -> (r: Option<usize>)
    ensures
        match r {
            Some(i) => first_occurrence(s@, p@, i as int),
            None => !contains_seq(s@, p@),
        },
{
    if p.len() > s.len() {
        assert forall|j: int| !occurs_at(s@, p@, j) by {}
        return None;
    }
    let last = s.len() - p.len();
    let mut i: usize = 0;
    loop
        invariant
            last == s@.len() - p@.len(),
            0 <= i <= last,
            forall|j: int| 0 <= j < i ==> !occurs_at(s@, p@, j),
        decreases last - i,
    {
        if chars_occurs_at(s, p, i) {
            return Some(i);
        }
        if i == last {
            assert forall|j: int| !occurs_at(s@, p@, j) by {
                if 0 <= j < i {
                }
            }
            return None;
        }
        i = i + 1;
    }
}

pub fn chars_contains(s: &[char], p: &[char]) -> (r: bool)
    ensures
        r == contains_seq(s@, p@),
{
    match chars_find(s, p) {
        Some(_) => true,
        None => false,
    }
}

/// Character-wise equality of two sequences.
pub fn chars_eq(a: &[char], b: &[char]) -> (r: bool)
    ensures
        r == (a@ == b@),
{
    if a.len() != b.len() {
        return false;
    }
    let r = chars_occurs_at(a, b, 0);
    proof {
        if r {
            assert(a@.subrange(0, b@.len() as int) == a@);
        } else {
            assert(a@.subrange(0, a@.len() as int) =~= a@);
        }
    }
    r
}

/// `a == b` on string slices.
pub fn str_eq(a: &str, b: &str) -> (r: bool)
    ensures
        r == (a@ == b@),
{
    let x = str_to_chars(a);
    let y = str_to_chars(b);
    chars_eq(x.as_slice(), y.as_slice())
}

/// First index of the character `c` in `s`.
pub fn chars_find_char(s: &[char], c: char) -> (r: Option<usize>)
    ensures
        match r {
            Some(i) => index_of_char(s@, c) == Some(i as int),
            None => index_of_char(s@, c) is None,
        },
{
    proof {
        lemma_index_of_char(s@, c);
    }
    let mut i: usize = 0;
    while i < s.len()
        invariant
            0 <= i <= s@.len(),
            forall|j: int| 0 <= j < i ==> s@[j] != c,
            match index_of_char(s@, c) {
                Some(k) => 0 <= k < s@.len() && s@[k] == c && forall|j: int|
                    0 <= j < k ==> s@[j] != c,
                None => forall|j: int| 0 <= j < s@.len() ==> s@[j] != c,
            },
        decreases s@.len() - i,
    {
        if s[i] == c {
            return Some(i);
        }
        i = i + 1;
    }
    None
}

/// The sub-vector `s[i..j]`.
pub fn sub_chars(s: &[char], i: usize, j: usize) -> (r: Vec<char>)
    requires
        i <= j <= s@.len(),
    ensures
        r@ == s@.subrange(i as int, j as int),
{
    let mut v: Vec<char> = Vec::new();
    let mut k: usize = i;
    while k < j
        invariant
            i <= k <= j <= s@.len(),
            v@ == s@.subrange(i as int, k as int),
        decreases j - k,
    {
        v.push(s[k]);
        k = k + 1;
        assert(v@ == s@.subrange(i as int, k as int));
    }
    v
}

// ---------------------------------------------------------------------------
// Joining
// ---------------------------------------------------------------------------

/// `parts.join(sep)`.
pub open spec fn join(parts: Seq<Seq<char>>, sep: Seq<char>) -> Seq<char>
    decreases parts.len(),
{
    if parts.len() == 0 {
        seq![]
    } else if parts.len() == 1 {
        parts[0]
    } else {
        join(parts.drop_last(), sep) + sep + parts.last()
    }
}

/// `parts.join(sep)` on owned strings.
pub fn join_strings(parts: &Vec<String>, sep: &str) -> (r: String)
    ensures
        r@ == join(parts@.map_values(|p: String| p@), sep@),
{
    let ghost views = parts@.map_values(|p: String| p@);
    let mut res = String::new();
    let mut i: usize = 0;
    while i < parts.len()
        invariant
            0 <= i <= parts@.len(),
            views == parts@.map_values(|p: String| p@),
            res@ == join(views.take(i as int), sep@),
        decreases parts@.len() - i,
    {
        if i > 0 {
            push_str(&mut res, sep);
        }
        push_str(&mut res, parts[i].as_str());
        proof {
            assert(views.take(i + 1).drop_last() =~= views.take(i as int));
            assert(views.take(i + 1).last() == parts@[i as int]@);
            if i == 0 {
                assert(views.take(1) =~= seq![parts@[0]@]);
            }
        }
        i = i + 1;
    }
    assert(views.take(parts@.len() as int) =~= views);
    res
}

// ---------------------------------------------------------------------------
// Decimal and hexadecimal rendering
// ---------------------------------------------------------------------------

pub open spec fn digit_char(d: nat) -> char
    recommends
        d < 16,
{
    if d < 10 {
        (('0' as nat) + d) as char
    } else {
        (('a' as nat) + d - 10) as char
    }
}

/// Digits of `n` in base `b` (2 <= b <= 16), most significant first, with no
/// leading zeros; `0` renders as `"0"`.
pub open spec fn radix_digits(n: nat, b: nat) -> Seq<char>
    decreases n,
{
    if b < 2 || n < b {
        seq![digit_char(n)]
    } else {
        proof {
            lemma_div_smaller(n, b);
        }
        radix_digits(n / b, b).push(digit_char(n % b))
    }
}

pub proof fn lemma_div_smaller(n: nat, b: nat)
    requires
        b >= 2,
        n >= b,
    ensures
        n / b < n,
        n % b < b,
{
    assert(n / b < n) by (nonlinear_arith)
        requires
            b >= 2,
            n >= b,
    ;
}

/// `n` in decimal, as `format!("{}", n)` renders it.
pub open spec fn dec(n: nat) -> Seq<char> {
    radix_digits(n, 10)
}

/// `n` in lower-case hexadecimal, as `format!("{:x}", n)` renders it.
pub open spec fn hex(n: nat) -> Seq<char> {
    radix_digits(n, 16)
}

fn digit_to_char(d: u64) -> (c: char)
    requires
        d < 16,
    ensures
        c == digit_char(d as nat),
{
    if d < 10 {
        (('0' as u8) + (d as u8)) as char
    } else {
        (('a' as u8) + (d as u8) - 10) as char
    }
}

pub(crate) proof fn lemma_radix_digits_len(n: nat, b: nat)
    requires
        b >= 2,
    ensures
        radix_digits(n, b).len() >= 1,
    decreases n,
{
    if n >= b {
        lemma_div_smaller(n, b);
        lemma_radix_digits_len(n / b, b);
    }
}

/// Renders `n` in base `b`.
pub fn u64_to_radix(n: u64, b: u64) -> (r: Vec<char>)
    requires
        2 <= b <= 16,
    ensures
        r@ == radix_digits(n as nat, b as nat),
    decreases n,
{
    if n < b {
        let mut v = Vec::new();
        v.push(digit_to_char(n));
        assert(v@ == seq![digit_char(n as nat)]);
        v
    } else {
        proof {
            lemma_div_smaller(n as nat, b as nat);
        }
        let mut v = u64_to_radix(n / b, b);
        v.push(digit_to_char(n % b));
        v
    }
}

/// `format!("{}", n)`.
pub fn u64_to_dec(n: u64) -> (r: String)
    ensures
        r@ == dec(n as nat),
{
    let v = u64_to_radix(n, 10);
    chars_to_string(v.as_slice())
}

/// `format!("{:x}", n)`.
pub fn u64_to_hex(n: u64) -> (r: String)
    ensures
        r@ == hex(n as nat),
{
    let v = u64_to_radix(n, 16);
    chars_to_string(v.as_slice())
}


// ---------------------------------------------------------------------------
// Splitting
// ---------------------------------------------------------------------------

pub open spec fn chars_views(v: Seq<Vec<char>>) -> Seq<Seq<char>> {
    v.map_values(|x: Vec<char>| x@)
}

/// `s.split(c)`: the pieces between occurrences of `c`; there is always at
/// least one piece.
pub open spec fn split_char(s: Seq<char>, c: char) -> Seq<Seq<char>>
    decreases s.len(),
{
    match index_of_char(s, c) {
        None => seq![s],
        Some(i) => if 0 <= i < s.len() {
            seq![s.take(i)] + split_char(s.skip(i + 1), c)
        } else {
            seq![s]
        },
    }
}

/// `s.split(c)`.
pub fn chars_split(s: &[char], c: char) -> (r: Vec<Vec<char>>)
    ensures
        chars_views(r@) == split_char(s@, c),
{
    let mut pieces: Vec<Vec<char>> = Vec::new();
    let mut start: usize = 0;
    let mut i: usize = 0;
    proof {
        lemma_index_of_char(s@, c);
    }
    assert(s@.skip(0) =~= s@);
    while i < s.len()
        invariant
            0 <= start <= i <= s@.len(),
            forall|j: int| start <= j < i ==> s@[j] != c,
            chars_views(pieces@) + split_char(s@.skip(start as int), c) == split_char(s@, c),
        decreases s@.len() - i,
    {
        if s[i] == c {
            let piece = sub_chars(s, start, i);
            proof {
                let rest = s@.skip(start as int);
                lemma_index_of_char(rest, c);
                assert(rest[i - start] == c);
                assert forall|j: int| 0 <= j < i - start implies rest[j] != c by {
                    assert(rest[j] == s@[start + j]);
                }
                assert(index_of_char(rest, c) == Some((i - start) as int));
                assert(rest.take(i - start) =~= piece@);
                assert(rest.skip(i - start + 1) =~= s@.skip(i + 1));
                assert(chars_views(pieces@.push(piece)) =~= chars_views(pieces@).push(piece@));
                assert(seq![rest.take(i - start)] + split_char(rest.skip(i - start + 1), c)
                    =~= seq![piece@] + split_char(s@.skip(i + 1), c));
                assert(chars_views(pieces@).push(piece@) + split_char(s@.skip(i + 1), c)
                    =~= chars_views(pieces@) + (seq![piece@] + split_char(s@.skip(i + 1), c)));
            }
            pieces.push(piece);
            start = i + 1;
        }
        i = i + 1;
    }
    let last = sub_chars(s, start, s.len());
    proof {
        let rest = s@.skip(start as int);
        lemma_index_of_char(rest, c);
        assert forall|j: int| 0 <= j < rest.len() implies rest[j] != c by {
            assert(rest[j] == s@[start + j]);
        }
        assert(index_of_char(rest, c) is None);
        assert(last@ =~= rest);
        assert(chars_views(pieces@.push(last)) =~= chars_views(pieces@) + seq![last@]);
    }
    pieces.push(last);
    pieces
}

// ---------------------------------------------------------------------------
// Unsigned decimal parsing
// ---------------------------------------------------------------------------

pub open spec fn is_digit(c: char) -> bool {
    '0' <= c && c <= '9'
}

pub open spec fn all_digits(s: Seq<char>) -> bool {
    forall|i: int| 0 <= i < s.len() ==> is_digit(#[trigger] s[i])
}

/// The value of a string of decimal digits.
pub open spec fn digits_value(s: Seq<char>) -> nat
    decreases s.len(),
{
    if s.len() == 0 {
        0
    } else {
        digits_value(s.drop_last()) * 10 + ((s.last() as nat) - ('0' as nat)) as nat
    }
}

/// The digits of an unsigned-integer literal as `str::parse` reads them: one
/// leading `+` is dropped when something follows it.
pub open spec fn unsigned_body(s: Seq<char>) -> Seq<char> {
    if s.len() >= 2 && s[0] == '+' {
        s.drop_first()
    } else {
        s
    }
}

/// `s.parse::<uN>()` where `max` is `uN::MAX`: the value of a non-empty
/// string of ASCII digits (after one optional `+`) that does not pass `max`.
pub open spec fn parse_unsigned(s: Seq<char>, max: nat) -> Option<nat> {
    let b = unsigned_body(s);
    if b.len() > 0 && all_digits(b) && digits_value(b) <= max {
        Some(digits_value(b))
    } else {
        None
    }
}

/// `s.parse::<uN>()` for the unsigned type whose maximum is `max`.
pub fn parse_unsigned_chars(s: &[char], max: u64) -> (r: Option<u64>)
    requires
        max >= 9,
    ensures
        match parse_unsigned(s@, max as nat) {
            Some(v) => r == Some(v as u64),
            None => r is None,
        },
{
    let start: usize = if s.len() >= 2 && s[0] == '+' {
        1
    } else {
        0
    };
    let ghost b = unsigned_body(s@);
    assert(b =~= s@.skip(start as int));
    if start == s.len() {
        return None;
    }
    let mut value: u64 = 0;
    let mut i: usize = start;
    while i < s.len()
        invariant
            start <= i <= s@.len(),
            max >= 9,
            b == unsigned_body(s@),
            b == s@.skip(start as int),
            all_digits(s@.subrange(start as int, i as int)),
            value as nat == digits_value(s@.subrange(start as int, i as int)),
            value <= max,
        decreases s@.len() - i,
    {
        let c = s[i];
        if !('0' <= c && c <= '9') {
            assert(b[i - start] == c);
            assert(!is_digit(b[i - start]));
            return None;
        }
        let d = (c as u32 - '0' as u32) as u64;
        let ghost prefix = s@.subrange(start as int, i + 1);
        assert(prefix.drop_last() =~= s@.subrange(start as int, i as int));
        assert(prefix.last() == c);
        if value > (max - d) / 10 {
            proof {
                assert(value * 10 + d > max) by (nonlinear_arith)
                    requires
                        value > (max - d) / 10,
                        d <= max,
                ;
                assert(b.take((i + 1 - start) as int) =~= prefix);
                assert(digits_value(prefix) == value * 10 + d);
                if all_digits(b) {
                    lemma_digits_value_monotone(b, (i + 1 - start) as int);
                }
            }
            return None;
        }
        assert(value * 10 + d <= max) by (nonlinear_arith)
            requires
                value <= (max - d) / 10,
                d <= 9,
        ;
        value = value * 10 + d;
        i = i + 1;
        assert(all_digits(s@.subrange(start as int, i as int))) by {
            assert forall|j: int| 0 <= j < prefix.len() implies is_digit(#[trigger] prefix[j]) by {
                if j < prefix.len() - 1 {
                    assert(prefix[j] == s@.subrange(start as int, i - 1)[j]);
                }
            }
        }
    }
    assert(s@.subrange(start as int, s@.len() as int) =~= b);
    Some(value)
}

/// A longer run of digits is worth at least as much as its prefix.
pub(crate) proof fn lemma_digits_value_monotone(s: Seq<char>, n: int)
    requires
        0 <= n <= s.len(),
        all_digits(s),
    ensures
        digits_value(s.take(n)) <= digits_value(s),
    decreases s.len(),
{
    if n < s.len() {
        assert(s.drop_last().take(n) =~= s.take(n));
        lemma_digits_value_monotone(s.drop_last(), n);
    } else {
        assert(s.take(n) =~= s);
    }
}

/// The decimal rendering of `n` is a run of digits whose value is `n`.
pub(crate) proof fn lemma_dec_digits(n: nat)
    ensures
        all_digits(dec(n)),
        digits_value(dec(n)) == n,
        dec(n).len() >= 1,
        dec(n)[0] != '+',
    decreases n,
{
    if n >= 10 {
        lemma_div_smaller(n, 10);
        lemma_dec_digits(n / 10);
        let d = dec(n);
        assert(d == dec(n / 10).push(digit_char(n % 10)));
        assert(d.drop_last() =~= dec(n / 10));
        assert(all_digits(d)) by {
            assert forall|i: int| 0 <= i < d.len() implies is_digit(#[trigger] d[i]) by {
                if i < d.len() - 1 {
                    assert(d[i] == dec(n / 10)[i]);
                }
            }
        }
        assert(n == (n / 10) * 10 + n % 10);
        assert(digit_char(n % 10) as nat == '0' as nat + n % 10);
        assert(d.last() == digit_char(n % 10));
        assert(digits_value(d) == digits_value(d.drop_last()) * 10 + ((d.last() as nat) - ('0' as nat)) as nat);
        assert(digits_value(d) == (n / 10) * 10 + n % 10);
    } else {
        let d = dec(n);
        assert(digit_char(n) as nat == '0' as nat + n);
        assert(d == seq![digit_char(n)]);
        assert(d.drop_last() =~= Seq::<char>::empty());
        assert(digits_value(d.drop_last()) == 0);
        assert(d.last() == digit_char(n));
        assert(digits_value(d) == digits_value(d.drop_last()) * 10 + ((d.last() as nat) - ('0' as nat)) as nat);
    }
}

/// Parsing the decimal rendering of a value gives the value back.
pub(crate) proof fn lemma_parse_dec(n: nat, max: nat)
    requires
        n <= max,
    ensures
        parse_unsigned(dec(n), max) == Some(n),
{
    lemma_dec_digits(n);
    assert(unsigned_body(dec(n)) == dec(n));
}

/// Splitting at a character that occurs gives at least two pieces.
pub(crate) proof fn lemma_split_len(s: Seq<char>, c: char)
    ensures
        split_char(s, c).len() >= 1,
        index_of_char(s, c) is Some ==> split_char(s, c).len() >= 2,
    decreases s.len(),
{
    lemma_index_of_char(s, c);
    match index_of_char(s, c) {
        Some(i) => {
            lemma_split_len(s.skip(i + 1), c);
        },
        None => {},
    }
}

} // verus!
