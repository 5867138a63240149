//! Searching in text: substrings, the first word, case-insensitive matching.
use vstd::prelude::*;

verus! {

/// `needle` occurs in `hay` starting at position `i`.
pub open spec fn occurs_at(hay: Seq<char>, needle: Seq<char>, i: int) -> bool {
    &&& 0 <= i
    &&& i + needle.len() <= hay.len()
    &&& hay.subrange(i, i + needle.len()) == needle
}

/// `needle` occurs somewhere in `hay` (the empty text occurs everywhere).
pub open spec fn contains_text(hay: Seq<char>, needle: Seq<char>) -> bool {
    exists|i: int| occurs_at(hay, needle, i)
}

/// The characters of `s`, in order.
pub fn chars_of(s: &str) -> (v: Vec<char>)
    ensures
        v@ == s@,
{
    let n = s.unicode_len();
    let mut v: Vec<char> = Vec::new();
    let mut i: usize = 0;
    while i < n
        invariant
            n == s@.len(),
            i <= n,
            v@ == s@.subrange(0, i as int),
        decreases n - i,
    {
        let c = s.get_char(i);
        v.push(c);
        proof {
            assert(s@.subrange(0, i + 1) == s@.subrange(0, i as int).push(c));
        }
        i = i + 1;
    }
    proof {
        assert(s@.subrange(0, n as int) == s@);
    }
    v
}

/// Whether `needle` occurs in `hay` at position `i`.
fn matches_at(hay: &Vec<char>, needle: &Vec<char>, i: usize) -> (r: bool)
    requires
        i + needle.len() <= hay.len(),
    ensures
        r == occurs_at(hay@, needle@, i as int),
{
    let m = needle.len();
    let mut j: usize = 0;
    while j < m
        invariant
            m == needle.len(),
            i + m <= hay.len(),
            j <= m,
            forall|k: int| 0 <= k < j ==> hay@[i + k] == needle@[k],
        decreases m - j,
    {
        if hay[i + j] != needle[j] {
            proof {
                assert(hay@.subrange(i as int, i + m)[j as int] != needle@[j as int]);
            }
            return false;
        }
        j = j + 1;
    }
    proof {
        assert(hay@.subrange(i as int, i + m) =~= needle@);
    }
    true
}

/// Whether `needle` occurs in `hay`.
pub fn text_contains(hay: &Vec<char>, needle: &Vec<char>) -> (r: bool)
    ensures
        r == contains_text(hay@, needle@),
{
    if needle.len() > hay.len() {
        proof {
            assert forall|i: int| !occurs_at(hay@, needle@, i) by {}
        }
        return false;
    }
    if needle.len() == 0 {
        proof {
            assert(hay@.subrange(0, 0) =~= needle@);
            assert(occurs_at(hay@, needle@, 0));
        }
        return true;
    }
    let last = hay.len() - needle.len();
    let mut i: usize = 0;
    while i <= last
        invariant
            needle.len() > 0,
            last == hay.len() - needle.len(),
            i <= last + 1,
            forall|k: int| 0 <= k < i ==> !occurs_at(hay@, needle@, k),
        decreases last + 1 - i,
    {
        if matches_at(hay, needle, i) {
            return true;
        }
        i = i + 1;
    }
    proof {
        assert forall|k: int| !occurs_at(hay@, needle@, k) by {
            if 0 <= k && k + needle@.len() <= hay@.len() {
                assert(k < i);
            }
        }
    }
    false
}

/// Whether `c` has the Unicode `White_Space` property, which is what
/// `char::is_whitespace` tests.
pub open spec fn white_space(c: char) -> bool {
    let u = c as u32;
    ||| 0x09 <= u <= 0x0d
    ||| u == 0x20
    ||| u == 0x85
    ||| u == 0xa0
    ||| u == 0x1680
    ||| 0x2000 <= u <= 0x200a
    ||| u == 0x2028
    ||| u == 0x2029
    ||| u == 0x202f
    ||| u == 0x205f
    ||| u == 0x3000
}

/// Whether `c` is a whitespace character.
pub fn is_whitespace(c: char) -> (r: bool)
    ensures
        r == white_space(c),
{
    let u = c as u32;
    (0x09 <= u && u <= 0x0d) || u == 0x20 || u == 0x85 || u == 0xa0 || u == 0x1680 || (0x2000 <= u && u
        <= 0x200a) || u == 0x2028 || u == 0x2029 || u == 0x202f || u == 0x205f || u == 0x3000
}

/// `s[a..b]` is the first word of `s`: everything before `a` is whitespace,
/// the characters from `a` to `b` are not, and `b` ends the text or is
/// followed by whitespace.
pub open spec fn first_word_at(s: Seq<char>, a: int, b: int) -> bool {
    &&& 0 <= a < b <= s.len()
    &&& forall|k: int| 0 <= k < a ==> white_space(#[trigger] s[k])
    &&& forall|k: int| a <= k < b ==> !white_space(#[trigger] s[k])
    &&& (b == s.len() || white_space(s[b]))
}

/// Where the first whitespace-separated word of `s` starts and ends, if
/// there is one.
pub open spec fn first_word_span(s: Seq<char>) -> Option<(int, int)> {
    if exists|a: int, b: int| first_word_at(s, a, b) {
        Some(choose|a: int, b: int| first_word_at(s, a, b))
    } else {
        None
    }
}

/// The first whitespace-separated word of `s`, if there is one.
pub open spec fn first_word(s: Seq<char>) -> Option<Seq<char>> {
    match first_word_span(s) {
        Some((a, b)) => Some(s.subrange(a, b)),
        None => None,
    }
}

/// The second whitespace-separated word of `s`, if there is one.
pub open spec fn second_word(s: Seq<char>) -> Option<Seq<char>> {
    match first_word_span(s) {
        Some((a, b)) => first_word(s.subrange(b, s.len() as int)),
        None => None,
    }
}

/// There is only one way to place the first word.
pub proof fn lemma_first_word_unique(s: Seq<char>, a1: int, b1: int, a2: int, b2: int)
    requires
        first_word_at(s, a1, b1),
        first_word_at(s, a2, b2),
    ensures
        a1 == a2 && b1 == b2,
{
    if a1 < a2 {
        assert(white_space(s[a1]));
    } else if a2 < a1 {
        assert(white_space(s[a2]));
    }
    if b1 < b2 {
        assert(!white_space(s[b1]));
    } else if b2 < b1 {
        assert(!white_space(s[b2]));
    }
}

/// The span of a word found at `a..b` is the first word's span.
pub proof fn lemma_first_word_span(s: Seq<char>, a: int, b: int)
    requires
        first_word_at(s, a, b),
    ensures
        first_word_span(s) == Some((a, b)),
{
    let (x, y) = choose|x: int, y: int| first_word_at(s, x, y);
    lemma_first_word_unique(s, a, b, x, y);
}

/// Where the first whitespace-separated word of `s` starts and ends.
pub fn find_first_word(s: &Vec<char>) -> (r: Option<(usize, usize)>)
    ensures
        match r {
            Some((a, b)) => first_word_span(s@) == Some((a as int, b as int)),
            None => first_word_span(s@) is None,
        },
{
    let n = s.len();
    let mut a: usize = 0;
    while a < n && is_whitespace(s[a])
        invariant
            n == s.len(),
            a <= n,
            forall|k: int| 0 <= k < a ==> white_space(#[trigger] s@[k]),
        decreases n - a,
    {
        a = a + 1;
    }
    if a == n {
        proof {
            assert forall|x: int, y: int| !first_word_at(s@, x, y) by {
                if first_word_at(s@, x, y) {
                    assert(white_space(s@[x]));
                }
            }
        }
        return None;
    }
    let mut b: usize = a + 1;
    while b < n && !is_whitespace(s[b])
        invariant
            n == s.len(),
            a < b <= n,
            forall|k: int| 0 <= k < a ==> white_space(#[trigger] s@[k]),
            !white_space(s@[a as int]),
            forall|k: int| a <= k < b ==> !white_space(#[trigger] s@[k]),
        decreases n - b,
    {
        b = b + 1;
    }
    proof {
        lemma_first_word_span(s@, a as int, b as int);
    }
    Some((a, b))
}

/// The characters of `s` from `a` to `b`.
pub fn slice_chars(s: &Vec<char>, a: usize, b: usize) -> (r: Vec<char>)
    requires
        a <= b <= s.len(),
    ensures
        r@ == s@.subrange(a as int, b as int),
{
    let mut w: Vec<char> = Vec::new();
    let mut i: usize = a;
    while i < b
        invariant
            a <= i <= b <= s.len(),
            w@ == s@.subrange(a as int, i as int),
        decreases b - i,
    {
        w.push(s[i]);
        proof {
            assert(s@.subrange(a as int, i + 1) == s@.subrange(a as int, i as int).push(s@[i as int]));
        }
        i = i + 1;
    }
    w
}

/// The first whitespace-separated word of `s` (what
/// `split_whitespace().next()` gives).
pub fn first_word_of(s: &Vec<char>) -> (r: Option<Vec<char>>)
    ensures
        match r {
            Some(w) => first_word(s@) == Some(w@),
            None => first_word(s@) is None,
        },
{
    match find_first_word(s) {
        Some((a, b)) => Some(slice_chars(s, a, b)),
        None => None,
    }
}

/// The second whitespace-separated word of `s` (what
/// `split_whitespace().nth(1)` gives).
pub fn second_word_of(s: &Vec<char>) -> (r: Option<Vec<char>>)
    ensures
        match r {
            Some(w) => second_word(s@) == Some(w@),
            None => second_word(s@) is None,
        },
{
    match find_first_word(s) {
        Some((a, b)) => {
            let rest = slice_chars(s, b, s.len());
            first_word_of(&rest)
        },
        None => None,
    }
}

/// `c` is a decimal digit.
pub open spec fn is_digit(c: char) -> bool {
    '0' <= c <= '9'
}

/// The number written by the decimal digits `d`.
pub open spec fn digits_value(d: Seq<char>) -> nat
    decreases d.len(),
{
    if d.len() == 0 {
        0
    } else {
        digits_value(d.drop_last()) * 10 + (d.last() as nat - '0' as nat) as nat
    }
}

/// `w` without its leading `+`, if it has one.
pub open spec fn unsigned_digits(w: Seq<char>) -> Seq<char> {
    if w.len() > 0 && w[0] == '+' {
        w.drop_first()
    } else {
        w
    }
}

/// Every character of `d` is a decimal digit.
pub open spec fn all_digits(d: Seq<char>) -> bool {
    forall|i: int| 0 <= i < d.len() ==> is_digit(#[trigger] d[i])
}

/// What `str::parse::<u8>` gives: an optional `+` followed by at least one
/// decimal digit and nothing else, for a value that fits in a `u8`.
pub open spec fn parse_u8(w: Seq<char>) -> Option<u8> {
    let d = unsigned_digits(w);
    if d.len() > 0 && all_digits(d) && digits_value(d) <= 255 {
        Some(digits_value(d) as u8)
    } else {
        None
    }
}

/// Reads a `u8` written in decimal, as `str::parse::<u8>` does.
pub fn parse_u8_of(w: &Vec<char>) -> (r: Option<u8>)
    ensures
        r == parse_u8(w@),
{
    let start: usize = if w.len() > 0 && w[0] == '+' {
        1
    } else {
        0
    };
    let ghost d = unsigned_digits(w@);
    proof {
        assert(d =~= w@.subrange(start as int, w@.len() as int));
    }
    if start == w.len() {
        return None;
    }
    let mut v: u32 = 0;
    let mut i: usize = start;
    while i < w.len()
        invariant
            start <= i <= w.len(),
            d == w@.subrange(start as int, w@.len() as int),
            d == unsigned_digits(w@),
            d.len() > 0,
            forall|k: int| start <= k < i ==> is_digit(#[trigger] w@[k]),
            v == digits_value(w@.subrange(start as int, i as int)),
            v <= 255,
        decreases w.len() - i,
    {
        let c = w[i];
        proof {
            assert(w@.subrange(start as int, i + 1).drop_last() =~= w@.subrange(start as int, i as int));
        }
        if !('0' <= c && c <= '9') {
            proof {
                assert(!is_digit(d[i - start]));
                assert(!all_digits(d));
                assert(parse_u8(w@) is None);
            }
            return None;
        }
        let digit: u32 = (c as u32) - ('0' as u32);
        v = v * 10 + digit;
        if v > 255 {
            proof {
                assert(w@.subrange(start as int, i + 1) =~= d.subrange(0, i - start + 1));
                if all_digits(d) {
                    lemma_digits_value_grows(d, (i - start + 1) as int);
                    assert(digits_value(d) > 255);
                }
                assert(parse_u8(w@) is None);
            }
            return None;
        }
        i = i + 1;
    }
    proof {
        assert(w@.subrange(start as int, w@.len() as int) =~= d);
    }
    Some(v as u8)
}

/// The value of a longer run of digits is at least that of its prefix.
proof fn lemma_digits_value_grows(d: Seq<char>, n: int)
    requires
        0 <= n <= d.len(),
        forall|i: int| 0 <= i < d.len() ==> is_digit(#[trigger] d[i]),
    ensures
        digits_value(d.subrange(0, n)) <= digits_value(d),
    decreases d.len() - n,
{
    if n < d.len() {
        lemma_digits_value_grows(d, n + 1);
        assert(d.subrange(0, n + 1).drop_last() =~= d.subrange(0, n));
        assert(d.subrange(0, n + 1).last() == d[n]);
        assert(is_digit(d[n]));
    } else {
        assert(d.subrange(0, n) =~= d);
    }
}

/// Whether `s` starts with the text of `lit`.
pub fn starts_with_literal(s: &Vec<char>, lit: &str) -> (r: bool)
    ensures
        r == lit@.is_prefix_of(s@),
{
    let l = chars_of(lit);
    if l.len() > s.len() {
        return false;
    }
    let mut i: usize = 0;
    while i < l.len()
        invariant
            l@ == lit@,
            l.len() <= s.len(),
            i <= l.len(),
            forall|k: int| 0 <= k < i ==> s@[k] == l@[k],
        decreases l.len() - i,
    {
        if s[i] != l[i] {
            proof {
                assert(s@.subrange(0, l@.len() as int)[i as int] != l@[i as int]);
            }
            return false;
        }
        i = i + 1;
    }
    proof {
        assert(l@ =~= s@.subrange(0, l@.len() as int));
    }
    true
}

/// The length of the run of decimal digits of `s` that starts at `i`.
pub open spec fn digit_run(s: Seq<char>, i: int) -> nat
    decreases s.len() - i,
{
    if 0 <= i < s.len() && is_digit(s[i]) {
        1 + digit_run(s, i + 1)
    } else {
        0
    }
}

/// An image reference `[image_N]`, with `N` one or more decimal digits,
/// starts at position `i` of `s`.
pub open spec fn image_ref_at(s: Seq<char>, i: int) -> bool {
    let k = digit_run(s, i + 7);
    &&& 0 <= i
    &&& i + 7 <= s.len()
    &&& s.subrange(i, i + 7) == "[image_"@
    &&& k > 0
    &&& i + 7 + k < s.len()
    &&& s[i + 7 + k] == ']'
}

/// The numbers of the image references of `s` from position `i` on, in
/// order, each reference read where it starts and the search going on after
/// it; a number too large for a `u64` is skipped.
pub open spec fn image_refs_from(s: Seq<char>, i: int) -> Seq<u64>
    decreases s.len() - i,
{
    if i < 0 || i >= s.len() {
        Seq::empty()
    } else if image_ref_at(s, i) {
        let k = digit_run(s, i + 7);
        let v = digits_value(s.subrange(i + 7, i + 7 + k));
        let rest = image_refs_from(s, i + 7 + k + 1);
        if v <= u64::MAX {
            seq![v as u64] + rest
        } else {
            rest
        }
    } else {
        image_refs_from(s, i + 1)
    }
}

/// The numbers of the image references `[image_N]` of a text, in order.
pub open spec fn image_refs(s: Seq<char>) -> Seq<u64> {
    image_refs_from(s, 0)
}

/// A longer run of digits is worth at least as much.
proof fn lemma_digits_value_push(d: Seq<char>, c: char)
    requires
        is_digit(c),
    ensures
        digits_value(d.push(c)) == digits_value(d) * 10 + (c as nat - '0' as nat),
        digits_value(d.push(c)) >= digits_value(d),
{
    assert(d.push(c).drop_last() =~= d);
}

/// The run of digits at `i`, its end, and its value (`None` when it does
/// not fit in a `u64`).
fn read_digits(s: &Vec<char>, i: usize) -> (r: (usize, Option<u64>))
    requires
        i <= s.len(),
    ensures
        r.0 == i + digit_run(s@, i as int),
        r.0 <= s.len(),
        match r.1 {
            Some(v) => v == digits_value(s@.subrange(i as int, r.0 as int)),
            None => digits_value(s@.subrange(i as int, r.0 as int)) > u64::MAX,
        },
{
    let mut j: usize = i;
    let mut v: u64 = 0;
    let mut fits = true;
    while j < s.len() && '0' <= s[j] && s[j] <= '9'
        invariant
            i <= j <= s.len(),
            digit_run(s@, i as int) == (j - i) + digit_run(s@, j as int),
            fits ==> v == digits_value(s@.subrange(i as int, j as int)),
            !fits ==> digits_value(s@.subrange(i as int, j as int)) > u64::MAX,
        decreases s.len() - j,
    {
        let c = s[j];
        proof {
            assert(s@.subrange(i as int, j + 1) =~= s@.subrange(i as int, j as int).push(c));
            lemma_digits_value_push(s@.subrange(i as int, j as int), c);
        }
        let digit: u64 = (c as u64) - ('0' as u64);
        if fits {
            if v > (u64::MAX - digit) / 10 {
                fits = false;
            } else {
                v = v * 10 + digit;
            }
        }
        j = j + 1;
    }
    (j, if fits { Some(v) } else { None })
}

/// Whether `s` holds the text of `lit` at position `i`.
fn literal_at(s: &Vec<char>, i: usize, lit: &str) -> (r: bool)
    requires
        i <= s.len(),
    ensures
        r == (i + lit@.len() <= s.len() && s@.subrange(i as int, i + lit@.len()) == lit@),
{
    let l = chars_of(lit);
    if l.len() > s.len() - i {
        return false;
    }
    let mut k: usize = 0;
    while k < l.len()
        invariant
            l@ == lit@,
            i + l.len() <= s.len(),
            k <= l.len(),
            forall|m: int| 0 <= m < k ==> s@[i + m] == l@[m],
        decreases l.len() - k,
    {
        if s[i + k] != l[k] {
            proof {
                assert(s@.subrange(i as int, i + l@.len())[k as int] != l@[k as int]);
            }
            return false;
        }
        k = k + 1;
    }
    proof {
        assert(s@.subrange(i as int, i + l@.len()) =~= l@);
    }
    true
}

/// The numbers of the image references `[image_N]` of `text`, in order
/// (what the pattern `\[image_(\d+)]` finds, keeping the numbers that read
/// as a `u64`).
pub fn image_ids(text: &str) -> (r: Vec<u64>)
    ensures
        r@ == image_refs(text@),
{
    let s = chars_of(text);
    let n = s.len();
    let mut out: Vec<u64> = Vec::new();
    let mut i: usize = 0;
    proof {
        reveal_strlit("[image_");
    }
    while i < n
        invariant
            n == s.len(),
            s@ == text@,
            i <= n,
            "[image_"@.len() == 7,
            out@ + image_refs_from(s@, i as int) == image_refs(s@),
        decreases n - i,
    {
        let mut found = false;
        if literal_at(&s, i, "[image_") {
            let (end, value) = read_digits(&s, i + 7);
            if end > i + 7 && end < n && s[end] == ']' {
                found = true;
                proof {
                    assert(image_ref_at(s@, i as int));
                }
                match value {
                    Some(v) => {
                        let ghost before = out@;
                        out.push(v);
                        proof {
                            assert(out@ + image_refs_from(s@, end + 1) =~= before + (seq![v] + image_refs_from(s@, end + 1)));
                        }
                    },
                    None => {},
                }
                i = end + 1;
            }
        }
        if !found {
            proof {
                assert(!image_ref_at(s@, i as int));
            }
            i = i + 1;
        }
    }
    proof {
        assert(image_refs_from(s@, n as int) == Seq::<u64>::empty());
        assert(out@ + Seq::<u64>::empty() =~= out@);
    }
    out
}

/// What `str::to_lowercase` gives for a text; a function of the text alone.
pub uninterp spec fn lowercase(s: Seq<char>) -> Seq<char>;

/// Calls `str::to_lowercase`; the result is named `lowercase(s@)`.
#[verifier::external_body]
pub(crate) fn to_lowercase(s: &str) -> (r: String)
    ensures
        r@ == lowercase(s@),
{
    s.to_lowercase()
}

} // verus!
