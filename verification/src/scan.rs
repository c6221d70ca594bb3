//! Line, whitespace and pattern handling on character sequences, as
//! `str::lines`, `str::trim`, `str::split_whitespace`,
//! `str::trim_start_matches` and `str::replace` behave, plus the byte
//! encoding of a string and its lower-case form.
use vstd::prelude::*;
use vstd::utf8::encode_utf8;
use vstd::string::StringSliceAdditionalSpecFns;
use crate::text::{
    chars_find, chars_occurs_at, first_occurrence, index_of_char,
    lemma_index_of_char, occurs_at, starts_with, sub_chars,
};

verus! {

broadcast use vstd::string::group_string_axioms;

// ---------------------------------------------------------------------------
// Lines
// ---------------------------------------------------------------------------

/// `l` without one trailing carriage return.
pub open spec fn strip_cr(l: Seq<char>) -> Seq<char> {
    if l.len() > 0 && l.last() == '\r' {
        l.drop_last()
    } else {
        l
    }
}

/// `s.lines()`: the pieces ended by `\n` (each without a `\r` just before
/// it), then what follows the last `\n` when it is not empty.
pub open spec fn lines_of(s: Seq<char>) -> Seq<Seq<char>>
    decreases s.len(),
{
    if s.len() == 0 {
        Seq::empty()
    } else {
        match index_of_char(s, '\n') {
            None => seq![s],
            Some(i) => if 0 <= i < s.len() {
                seq![strip_cr(s.take(i))] + lines_of(s.skip(i + 1))
            } else {
                seq![s]
            },
        }
    }
}

pub open spec fn char_seqs(v: Seq<Vec<char>>) -> Seq<Seq<char>> {
    v.map_values(|x: Vec<char>| x@)
}

fn strip_cr_chars(v: Vec<char>) -> (r: Vec<char>)
    ensures
        r@ == strip_cr(v@),
{
    let mut v = v;
    if v.len() > 0 && v[v.len() - 1] == '\r' {
        v.pop();
    }
    v
}

/// `s.lines()`.
pub fn chars_lines(s: &[char]) -> (r: Vec<Vec<char>>)
    ensures
        char_seqs(r@) == lines_of(s@),
{
    let mut out: Vec<Vec<char>> = Vec::new();
    let mut start: usize = 0;
    let mut i: usize = 0;
    proof {
        lemma_index_of_char(s@, '\n');
    }
    assert(s@.skip(0) =~= s@);
    while i < s.len()
        invariant
            0 <= start <= i <= s@.len(),
            forall|j: int| start <= j < i ==> s@[j] != '\n',
            char_seqs(out@) + lines_of(s@.skip(start as int)) == lines_of(s@),
        decreases s@.len() - i,
    {
        if s[i] == '\n' {
            let piece = strip_cr_chars(sub_chars(s, start, i));
            proof {
                let rest = s@.skip(start as int);
                lemma_index_of_char(rest, '\n');
                assert(rest[i - start] == '\n');
                assert forall|j: int| 0 <= j < i - start implies rest[j] != '\n' by {
                    assert(rest[j] == s@[start + j]);
                }
                assert(index_of_char(rest, '\n') == Some((i - start) as int));
                assert(rest.take(i - start) =~= s@.subrange(start as int, i as int));
                assert(rest.skip(i - start + 1) =~= s@.skip(i + 1));
                assert(char_seqs(out@.push(piece)) =~= char_seqs(out@).push(piece@));
                assert(char_seqs(out@).push(piece@) + lines_of(s@.skip(i + 1)) =~= char_seqs(
                    out@,
                ) + (seq![piece@] + lines_of(s@.skip(i + 1))));
            }
            out.push(piece);
            start = i + 1;
        }
        i = i + 1;
    }
    let ghost rest = s@.skip(start as int);
    if start < s.len() {
        let last = sub_chars(s, start, s.len());
        proof {
            lemma_index_of_char(rest, '\n');
            assert forall|j: int| 0 <= j < rest.len() implies rest[j] != '\n' by {
                assert(rest[j] == s@[start + j]);
            }
            assert(index_of_char(rest, '\n') is None);
            assert(last@ =~= rest);
            assert(char_seqs(out@.push(last)) =~= char_seqs(out@) + seq![last@]);
        }
        out.push(last);
    } else {
        assert(rest.len() == 0);
        assert(char_seqs(out@) + lines_of(rest) =~= char_seqs(out@));
    }
    out
}

// ---------------------------------------------------------------------------
// Whitespace
// ---------------------------------------------------------------------------

/// Unicode `White_Space`, as `char::is_whitespace` tests it.
pub open spec fn is_ws(c: char) -> bool {
    ||| ('\t' <= c && c <= '\r')
    ||| c == ' '
    ||| c == '\u{85}'
    ||| c == '\u{a0}'
    ||| c == '\u{1680}'
    ||| ('\u{2000}' <= c && c <= '\u{200a}')
    ||| c == '\u{2028}'
    ||| c == '\u{2029}'
    ||| c == '\u{202f}'
    ||| c == '\u{205f}'
    ||| c == '\u{3000}'
}

/// `c.is_whitespace()`.
pub fn char_is_whitespace(c: char) -> (r: bool)
    ensures
        r == is_ws(c),
{
    ('\t' <= c && c <= '\r') || c == ' ' || c == '\u{85}' || c == '\u{a0}' || c == '\u{1680}'
        || ('\u{2000}' <= c && c <= '\u{200a}') || c == '\u{2028}' || c == '\u{2029}' || c
        == '\u{202f}' || c == '\u{205f}' || c == '\u{3000}'
}

pub open spec fn trim_start(s: Seq<char>) -> Seq<char>
    decreases s.len(),
{
    if s.len() > 0 && is_ws(s[0]) {
        trim_start(s.drop_first())
    } else {
        s
    }
}

pub open spec fn trim_end(s: Seq<char>) -> Seq<char>
    decreases s.len(),
{
    if s.len() > 0 && is_ws(s.last()) {
        trim_end(s.drop_last())
    } else {
        s
    }
}

/// `s.trim()`.
pub open spec fn trim(s: Seq<char>) -> Seq<char> {
    trim_end(trim_start(s))
}

/// The index of the first character of `s` that is not whitespace.
fn skip_ws(s: &[char], from: usize) -> (r: usize)
    requires
        from <= s@.len(),
    ensures
        from <= r <= s@.len(),
        trim_start(s@.skip(from as int)) == s@.skip(r as int),
{
    let mut i = from;
    while i < s.len() && char_is_whitespace(s[i])
        invariant
            from <= i <= s@.len(),
            trim_start(s@.skip(from as int)) == trim_start(s@.skip(i as int)),
        decreases s@.len() - i,
    {
        assert(s@.skip(i as int).drop_first() =~= s@.skip(i + 1));
        i = i + 1;
    }
    i
}

/// `s.trim()`.
pub fn chars_trim(s: &[char]) -> (r: Vec<char>)
    ensures
        r@ == trim(s@),
{
    let start = skip_ws(s, 0);
    assert(s@.skip(0) =~= s@);
    let mut end = s.len();
    let ghost t = s@.skip(start as int);
    assert(t.subrange(0, (end - start) as int) =~= t);
    while end > start && char_is_whitespace(s[end - 1])
        invariant
            start <= end <= s@.len(),
            t == s@.skip(start as int),
            trim_end(t) == trim_end(s@.subrange(start as int, end as int)),
        decreases end,
    {
        assert(s@.subrange(start as int, end as int).drop_last() =~= s@.subrange(
            start as int,
            end - 1,
        ));
        end = end - 1;
    }
    sub_chars(s, start, end)
}

/// `s.trim()` on a string slice.
pub fn str_trim(s: &str) -> (r: Vec<char>)
    ensures
        r@ == trim(s@),
{
    let v = crate::text::str_to_chars(s);
    chars_trim(v.as_slice())
}

/// The run of non-whitespace characters at the start of `s`.
pub open spec fn word_len(s: Seq<char>) -> nat
    decreases s.len(),
{
    if s.len() == 0 || is_ws(s[0]) {
        0
    } else {
        1 + word_len(s.drop_first())
    }
}

/// `s.split_whitespace()`: the maximal runs of non-whitespace characters.
pub open spec fn words(s: Seq<char>) -> Seq<Seq<char>>
    decreases s.len(),
{
    let t = trim_start(s);
    if t.len() == 0 || t.len() > s.len() {
        Seq::empty()
    } else {
        let n = word_len(t);
        if 0 < n <= t.len() {
            seq![t.take(n as int)] + words(t.skip(n as int))
        } else {
            Seq::empty()
        }
    }
}

proof fn lemma_trim_start_len(s: Seq<char>)
    ensures
        trim_start(s).len() <= s.len(),
        trim_start(s).len() > 0 ==> !is_ws(trim_start(s)[0]),
    decreases s.len(),
{
    if s.len() > 0 && is_ws(s[0]) {
        lemma_trim_start_len(s.drop_first());
    }
}

proof fn lemma_word_len(s: Seq<char>)
    ensures
        word_len(s) <= s.len(),
        s.len() > 0 && !is_ws(s[0]) ==> word_len(s) > 0,
        forall|j: int| 0 <= j < word_len(s) ==> !is_ws(#[trigger] s[j]),
        word_len(s) < s.len() ==> is_ws(s[word_len(s) as int]),
    decreases s.len(),
{
    if s.len() > 0 && !is_ws(s[0]) {
        lemma_word_len(s.drop_first());
        assert forall|j: int| 0 <= j < word_len(s) implies !is_ws(#[trigger] s[j]) by {
            if j > 0 {
                assert(s[j] == s.drop_first()[j - 1]);
            }
        }
    }
}

/// The end of the word that starts at `from`.
fn word_end(s: &[char], from: usize) -> (r: usize)
    requires
        from <= s@.len(),
    ensures
        r == from + word_len(s@.skip(from as int)),
        r <= s@.len(),
{
    let mut i = from;
    proof {
        lemma_word_len(s@.skip(from as int));
    }
    while i < s.len() && !char_is_whitespace(s[i])
        invariant
            from <= i <= s@.len(),
            word_len(s@.skip(from as int)) == (i - from) + word_len(s@.skip(i as int)),
        decreases s@.len() - i,
    {
        assert(s@.skip(i as int).drop_first() =~= s@.skip(i + 1));
        i = i + 1;
    }
    i
}

/// `s.split_whitespace()`.
pub fn chars_words(s: &[char]) -> (r: Vec<Vec<char>>)
    ensures
        char_seqs(r@) == words(s@),
{
    let mut out: Vec<Vec<char>> = Vec::new();
    let mut i: usize = 0;
    assert(s@.skip(0) =~= s@);
    loop
        invariant
            i <= s@.len(),
            char_seqs(out@) + words(s@.skip(i as int)) == words(s@),
        decreases s@.len() - i,
    {
        let start = skip_ws(s, i);
        proof {
            lemma_trim_start_len(s@.skip(i as int));
        }
        if start == s.len() {
            assert(words(s@.skip(i as int)) =~= Seq::<Seq<char>>::empty());
            assert(char_seqs(out@) + Seq::<Seq<char>>::empty() =~= char_seqs(out@));
            return out;
        }
        let end = word_end(s, start);
        let w = sub_chars(s, start, end);
        proof {
            let t = s@.skip(start as int);
            lemma_word_len(t);
            assert(t[0] == s@[start as int]);
            assert(word_len(t) > 0);
            assert(t.take(word_len(t) as int) =~= w@);
            assert(t.skip(word_len(t) as int) =~= s@.skip(end as int));
            assert(char_seqs(out@.push(w)) =~= char_seqs(out@).push(w@));
            assert(char_seqs(out@).push(w@) + words(s@.skip(end as int)) =~= char_seqs(out@)
                + (seq![w@] + words(s@.skip(end as int))));
        }
        out.push(w);
        i = end;
    }
}

// ---------------------------------------------------------------------------
// Prefix stripping and replacement
// ---------------------------------------------------------------------------

/// `s.trim_start_matches(p)`: `s` without every leading repetition of `p`.
pub open spec fn trim_start_matches(s: Seq<char>, p: Seq<char>) -> Seq<char>
    decreases s.len(),
{
    if p.len() > 0 && starts_with(s, p) {
        trim_start_matches(s.skip(p.len() as int), p)
    } else {
        s
    }
}

/// `s.trim_start_matches(p)`.
pub fn chars_trim_start_matches(s: &[char], p: &[char]) -> (r: Vec<char>)
    ensures
        r@ == trim_start_matches(s@, p@),
{
    let mut i: usize = 0;
    assert(s@.skip(0) =~= s@);
    let plen = p.len();
    let slen = s.len();
    if plen == 0 {
        return sub_chars(s, 0, s.len());
    }
    loop
        invariant
            slen == s@.len(),
            i <= s@.len(),
            plen == p@.len(),
            p@.len() > 0,
            trim_start_matches(s@, p@) == trim_start_matches(s@.skip(i as int), p@),
        ensures
            i <= s@.len(),
            trim_start_matches(s@, p@) == trim_start_matches(s@.skip(i as int), p@),
            !occurs_at(s@, p@, i as int),
        decreases s@.len() - i,
    {
        let found = chars_occurs_at(s, p, i);
        if !found {
            break;
        }
        assert(occurs_at(s@, p@, i as int));
        assert(i + p@.len() <= s@.len());
        assert(s@.skip(i as int).subrange(0, p@.len() as int) =~= s@.subrange(
            i as int,
            i + p@.len(),
        ));
        assert(s@.skip(i as int).skip(p@.len() as int) =~= s@.skip(i + p@.len()));
        i = i + plen;
    }
    proof {
        if p@.len() <= s@.len() - i {
            assert(s@.skip(i as int).subrange(0, p@.len() as int) =~= s@.subrange(
                i as int,
                i + p@.len(),
            ));
        }
    }
    sub_chars(s, i, s.len())
}

/// `s.replace(p, r)`: every non-overlapping occurrence of `p`, from the
/// left, replaced by `r`.
pub open spec fn replace_all(s: Seq<char>, p: Seq<char>, r: Seq<char>) -> Seq<char>
    decreases s.len(),
{
    if p.len() == 0 {
        s
    } else if exists|i: int| first_occurrence(s, p, i) {
        let i = choose|i: int| first_occurrence(s, p, i);
        if 0 <= i && i + p.len() <= s.len() {
            s.take(i) + r + replace_all(s.skip(i + p.len()), p, r)
        } else {
            s
        }
    } else {
        s
    }
}

pub(crate) proof fn lemma_first_occurrence_unique(s: Seq<char>, p: Seq<char>, i: int, j: int)
    requires
        first_occurrence(s, p, i),
        first_occurrence(s, p, j),
    ensures
        i == j,
{
}

/// `s.replace(p, r)` for a non-empty pattern.
pub fn chars_replace(s: &[char], p: &[char], r: &[char]) -> (out: Vec<char>)
    requires
        p@.len() > 0,
    ensures
        out@ == replace_all(s@, p@, r@),
{
    let mut res: Vec<char> = Vec::new();
    let mut i: usize = 0;
    assert(s@.skip(0) =~= s@);
    loop
        invariant
            i <= s@.len(),
            p@.len() > 0,
            res@ + replace_all(s@.skip(i as int), p@, r@) == replace_all(s@, p@, r@),
        decreases s@.len() - i,
    {
        let rest = sub_chars(s, i, s.len());
        assert(rest@ =~= s@.skip(i as int));
        match chars_find(rest.as_slice(), p) {
            None => {
                let ghost old_res = res@;
                let tail = rest.as_slice();
                let mut k: usize = 0;
                while k < tail.len()
                    invariant
                        k <= tail@.len(),
                        res@ == old_res + tail@.take(k as int),
                    decreases tail@.len() - k,
                {
                    res.push(tail[k]);
                    k = k + 1;
                    assert(res@ =~= old_res + tail@.take(k as int));
                }
                assert(tail@.take(tail@.len() as int) =~= tail@);
                assert(!(exists|j: int| first_occurrence(rest@, p@, j)));
                return res;
            },
            Some(j) => {
                proof {
                    let c = choose|x: int| first_occurrence(rest@, p@, x);
                    lemma_first_occurrence_unique(rest@, p@, c, j as int);
                    assert(rest@.skip(j + p@.len()) =~= s@.skip(i + j + p@.len()));
                }
                let ghost old_res = res@;
                let mut k: usize = 0;
                while k < j
                    invariant
                        j <= rest@.len(),
                        k <= j,
                        res@ == old_res + rest@.take(k as int),
                    decreases j - k,
                {
                    res.push(rest[k]);
                    k = k + 1;
                    assert(res@ =~= old_res + rest@.take(k as int));
                }
                let ghost mid = res@;
                let mut m: usize = 0;
                while m < r.len()
                    invariant
                        m <= r@.len(),
                        res@ == mid + r@.take(m as int),
                    decreases r@.len() - m,
                {
                    res.push(r[m]);
                    m = m + 1;
                    assert(res@ =~= mid + r@.take(m as int));
                }
                assert(r@.take(r@.len() as int) =~= r@);
                assert(res@ =~= old_res + rest@.take(j as int) + r@);
                assert(old_res + (rest@.take(j as int) + r@ + replace_all(
                    s@.skip(i + j + p@.len()),
                    p@,
                    r@,
                )) =~= old_res + rest@.take(j as int) + r@ + replace_all(
                    s@.skip(i + j + p@.len()),
                    p@,
                    r@,
                ));
                i = i + j + p.len();
            },
        }
    }
}

// ---------------------------------------------------------------------------
// Encoding and case
// ---------------------------------------------------------------------------

/// The UTF-8 bytes of `s`.
pub fn str_bytes(s: &str) -> (r: Vec<u8>)
    ensures
        r@ == encode_utf8(s@),
{
    let b = s.as_bytes();
    let mut v: Vec<u8> = Vec::new();
    let mut i: usize = 0;
    while i < b.len()
        invariant
            i <= b@.len(),
            b@ == s.spec_bytes(),
            v@ == b@.take(i as int),
        decreases b@.len() - i,
    {
        v.push(b[i]);
        i = i + 1;
        assert(v@ =~= b@.take(i as int));
    }
    assert(b@.take(b@.len() as int) =~= b@);
    v
}

/// What `str::to_lowercase` makes of `s`: its characters mapped to their
/// Unicode lower-case forms.
pub uninterp spec fn lowercase(s: Seq<char>) -> Seq<char>;

/// Calls `str::to_lowercase`; claims only that the result is the named
/// lower-case form of `s`, which depends on `s` alone.
#[verifier::external_body]
pub(crate) fn str_to_lowercase(s: &str) -> (r: String)
    ensures
        r@ == lowercase(s@),
{
    s.to_lowercase()
}

} // verus!
