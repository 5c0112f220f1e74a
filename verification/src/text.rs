//! Character-level text helpers used by the display matchers.
use vstd::arithmetic::div_mod::lemma_div_denominator;
use vstd::arithmetic::power::{lemma_pow_positive, pow};
use vstd::prelude::*;
use vstd::string::StringSliceAdditionalSpecFns;

verus! {

/// Appends one character to a string (`String::push`).
///
/// Trusted: std documents that `push` appends the given `char` to the end of the string.
#[verifier::external_body]
pub(crate) fn push_char(s: &mut String, c: char)
    ensures
        final(s)@ == old(s)@.push(c),
{
    s.push(c);
}

/// Collects the characters of a string slice.
pub fn chars_of(s: &str) -> (r: Vec<char>)
    ensures
        r@ == s@,
{
    let mut r: Vec<char> = Vec::new();
    for c in it: s.chars()
        invariant
            r@ == it.seq().take(it.index() as int),
            it.seq() == s@,
    {
        r.push(c);
    }
    r
}

/// Builds a string from a sequence of characters.
pub fn string_of(v: &Vec<char>) -> (r: String)
    ensures
        r@ == v@,
{
    let mut r = String::new();
    let n = v.len();
    for i in 0..n
        invariant
            n == v@.len(),
            r@ == v@.take(i as int),
    {
        push_char(&mut r, v[i]);
        assert(v@.take(i + 1) == v@.take(i as int).push(v@[i as int]));
    }
    assert(v@.take(n as int) == v@);
    r
}

/// Appends the characters of `more` to `v`.
pub fn append_chars(v: &mut Vec<char>, more: &Vec<char>)
    ensures
        final(v)@ == old(v)@ + more@,
{
    let m = more.len();
    for j in 0..m
        invariant
            m == more@.len(),
            v@ == old(v)@ + more@.take(j as int),
    {
        v.push(more[j]);
        assert(more@.take(j + 1) == more@.take(j as int).push(more@[j as int]));
    }
    assert(more@.take(m as int) == more@);
}

// ---------------------------------------------------------------------------
// Character classes
// ---------------------------------------------------------------------------
/// The Unicode `White_Space` property, which `char::is_whitespace` tests.
pub open spec fn is_white(c: char) -> bool {
    let u = c as u32;
    ||| 0x09 <= u <= 0x0D
    ||| u == 0x20
    ||| u == 0x85
    ||| u == 0xA0
    ||| u == 0x1680
    ||| 0x2000 <= u <= 0x200A
    ||| u == 0x2028
    ||| u == 0x2029
    ||| u == 0x202F
    ||| u == 0x205F
    ||| u == 0x3000
}

/// Tests the Unicode `White_Space` property of a character.
pub fn is_white_char(c: char) -> (r: bool)
    ensures
        r == is_white(c),
{
    let u = c as u32;
    (0x09 <= u && u <= 0x0D) || u == 0x20 || u == 0x85 || u == 0xA0 || u == 0x1680 || (0x2000
        <= u && u <= 0x200A) || u == 0x2028 || u == 0x2029 || u == 0x202F || u == 0x205F || u
        == 0x3000
}

/// `'0'..='9'`.
pub open spec fn is_digit(c: char) -> bool {
    '0' as u32 <= c as u32 <= '9' as u32
}

pub fn is_digit_char(c: char) -> (r: bool)
    ensures
        r == is_digit(c),
{
    let u = c as u32;
    48 <= u && u <= 57
}

/// Every character of `s` is an ASCII digit.
pub open spec fn all_digits(s: Seq<char>) -> bool {
    forall|j: int| 0 <= j < s.len() ==> is_digit(#[trigger] s[j])
}

/// ASCII lower-casing of one character; other characters are unchanged.
pub open spec fn ascii_lower(c: char) -> char {
    if 'A' as u32 <= c as u32 <= 'Z' as u32 {
        ((c as u32) + 32) as char
    } else {
        c
    }
}

pub fn ascii_lower_char(c: char) -> (r: char)
    ensures
        r == ascii_lower(c),
{
    let u = c as u32;
    if 65 <= u && u <= 90 {
        let b: u8 = (u + 32) as u8;
        b as char
    } else {
        c
    }
}

// ---------------------------------------------------------------------------
// Whitespace-separated words
// ---------------------------------------------------------------------------
/// The maximal runs of non-whitespace characters of `s`, in order.
pub open spec fn words(s: Seq<char>) -> Seq<Seq<char>>
    decreases s.len(),
{
    if s.len() == 0 {
        seq![]
    } else {
        let p = s.drop_last();
        let c = s.last();
        let ws = words(p);
        if is_white(c) {
            ws
        } else if p.len() > 0 && !is_white(p.last()) {
            ws.update(ws.len() - 1, ws.last().push(c))
        } else {
            ws.push(seq![c])
        }
    }
}

/// The words joined with one space between neighbours.
pub open spec fn join_words(ws: Seq<Seq<char>>) -> Seq<char>
    decreases ws.len(),
{
    if ws.len() == 0 {
        seq![]
    } else if ws.len() == 1 {
        ws[0]
    } else {
        join_words(ws.drop_last()) + seq![' '] + ws.last()
    }
}

/// A name with whitespace runs collapsed to single spaces, trimmed, and ASCII lower-cased.
pub open spec fn normalize(s: Seq<char>) -> Seq<char> {
    join_words(words(s)).map_values(|c: char| ascii_lower(c))
}

proof fn lemma_words_nonempty_after_word_char(s: Seq<char>)
    requires
        s.len() > 0,
        !is_white(s.last()),
    ensures
        words(s).len() > 0,
    decreases s.len(),
{
    let p = s.drop_last();
    if p.len() > 0 && !is_white(p.last()) {
        lemma_words_nonempty_after_word_char(p);
    }
}

proof fn lemma_words_empty_iff_all_white(s: Seq<char>)
    ensures
        (words(s).len() == 0) <==> (forall|j: int| 0 <= j < s.len() ==> is_white(#[trigger] s[j])),
    decreases s.len(),
{
    if s.len() > 0 {
        let p = s.drop_last();
        lemma_words_empty_iff_all_white(p);
        if !is_white(s.last()) {
            lemma_words_nonempty_after_word_char(s);
            assert(!is_white(s[s.len() - 1]));
        } else {
            assert forall|j: int| 0 <= j < s.len() && (forall|k: int| 0 <= k < p.len() ==> is_white(#[trigger] p[k])) implies is_white(#[trigger] s[j]) by {
                if j < p.len() {
                    assert(p[j] == s[j]);
                }
            }
            assert forall|k: int| 0 <= k < p.len() && (forall|j: int| 0 <= j < s.len() ==> is_white(#[trigger] s[j])) implies is_white(#[trigger] p[k]) by {
                assert(p[k] == s[k]);
            }
        }
    }
}

proof fn lemma_join_extend_last(ws: Seq<Seq<char>>, c: char)
    requires
        ws.len() > 0,
    ensures
        join_words(ws.update(ws.len() - 1, ws.last().push(c))) == join_words(ws).push(c),
{
    let ws2 = ws.update(ws.len() - 1, ws.last().push(c));
    if ws.len() == 1 {
    } else {
        assert(ws2.drop_last() == ws.drop_last());
        assert(ws2.last() == ws.last().push(c));
        assert(join_words(ws2) == join_words(ws.drop_last()) + seq![' '] + ws.last().push(c));
        assert(join_words(ws.drop_last()) + seq![' '] + ws.last().push(c) == (join_words(
            ws.drop_last(),
        ) + seq![' '] + ws.last()).push(c));
    }
}

proof fn lemma_join_push(ws: Seq<Seq<char>>, c: char)
    ensures
        join_words(ws.push(seq![c])) == if ws.len() == 0 {
            seq![c]
        } else {
            join_words(ws).push(' ').push(c)
        },
{
    let ws2 = ws.push(seq![c]);
    if ws.len() > 0 {
        assert(ws2.drop_last() == ws);
        assert(join_words(ws) + seq![' '] + seq![c] == join_words(ws).push(' ').push(c));
    }
}

/// Collapses whitespace runs to single spaces, trims, and ASCII lower-cases (`split_whitespace`, `join(" ")`, `to_ascii_lowercase`).
pub fn normalized_chars(s: &Vec<char>) -> (r: Vec<char>)
    ensures
        r@ == normalize(s@),
{
    let mut out: Vec<char> = Vec::new();
    let n = s.len();
    let mut i: usize = 0;
    while i < n
        invariant
            n == s@.len(),
            i <= n,
            out@ == join_words(words(s@.take(i as int))),
        decreases n - i,
    {
        let c = s[i];
        let ghost p = s@.take(i as int);
        assert(s@.take(i + 1).drop_last() == p);
        assert(s@.take(i + 1).last() == c);
        if is_white_char(c) {
        } else if i > 0 && !is_white_char(s[i - 1]) {
            assert(p.last() == s@[i - 1]);
            proof {
                lemma_words_nonempty_after_word_char(p);
                lemma_join_extend_last(words(p), c);
            }
            out.push(c);
        } else {
            proof {
                lemma_join_push(words(p), c);
                lemma_words_elements_nonempty(p);
                lemma_join_len_zero(words(p));
            }
            if out.len() > 0 {
                out.push(' ');
            }
            out.push(c);
        }
        i = i + 1;
    }
    assert(s@.take(n as int) == s@);
    let mut r: Vec<char> = Vec::new();
    let m = out.len();
    for j in 0..m
        invariant
            m == out@.len(),
            r@ == out@.take(j as int).map_values(|c: char| ascii_lower(c)),
    {
        let lc = ascii_lower_char(out[j]);
        r.push(lc);
        assert(out@.take(j + 1).map_values(|c: char| ascii_lower(c)) == out@.take(
            j as int,
        ).map_values(|c: char| ascii_lower(c)).push(lc));
    }
    assert(out@.take(m as int) == out@);
    r
}

proof fn lemma_words_elements_nonempty(s: Seq<char>)
    ensures
        forall|k: int| 0 <= k < words(s).len() ==> (#[trigger] words(s)[k]).len() > 0,
    decreases s.len(),
{
    if s.len() > 0 {
        let p = s.drop_last();
        lemma_words_elements_nonempty(p);
        let ws = words(p);
        if !is_white(s.last()) && p.len() > 0 && !is_white(p.last()) {
            lemma_words_nonempty_after_word_char(p);
            let ws2 = ws.update(ws.len() - 1, ws.last().push(s.last()));
            assert forall|k: int| 0 <= k < ws2.len() implies (#[trigger] ws2[k]).len() > 0 by {
                if k < ws.len() - 1 {
                    assert(ws2[k] == ws[k]);
                }
            }
        }
    }
}

proof fn lemma_join_len_zero(ws: Seq<Seq<char>>)
    requires
        forall|k: int| 0 <= k < ws.len() ==> (#[trigger] ws[k]).len() > 0,
    ensures
        (join_words(ws).len() == 0) <==> (ws.len() == 0),
    decreases ws.len(),
{
    if ws.len() > 1 {
        lemma_join_len_zero(ws.drop_last());
    }
}


// ---------------------------------------------------------------------------
// Splitting on a separator
// ---------------------------------------------------------------------------
/// The pieces of `s` between occurrences of `sep` (`str::split` with a `char` pattern).
pub open spec fn split_on(s: Seq<char>, sep: char) -> Seq<Seq<char>>
    decreases s.len(),
{
    if s.len() == 0 {
        seq![seq![]]
    } else {
        let ss = split_on(s.drop_last(), sep);
        if s.last() == sep {
            ss.push(seq![])
        } else {
            ss.update(ss.len() - 1, ss.last().push(s.last()))
        }
    }
}

pub proof fn lemma_split_on_nonempty(s: Seq<char>, sep: char)
    ensures
        split_on(s, sep).len() > 0,
    decreases s.len(),
{
    if s.len() > 0 {
        lemma_split_on_nonempty(s.drop_last(), sep);
    }
}

/// The character sequences held by a vector of character vectors.
pub open spec fn char_views(vs: Seq<Vec<char>>) -> Seq<Seq<char>> {
    vs.map_values(|v: Vec<char>| v@)
}

/// Splits a character sequence on every occurrence of `sep`.
pub fn split_chars(s: &Vec<char>, sep: char) -> (r: Vec<Vec<char>>)
    ensures
        char_views(r@) == split_on(s@, sep),
{
    let mut done: Vec<Vec<char>> = Vec::new();
    let mut cur: Vec<char> = Vec::new();
    let n = s.len();
    for i in 0..n
        invariant
            n == s@.len(),
            char_views(done@).push(cur@) == split_on(s@.take(i as int), sep),
    {
        let c = s[i];
        let ghost p = s@.take(i as int);
        assert(s@.take(i + 1).drop_last() == p);
        assert(s@.take(i + 1).last() == c);
        proof {
            lemma_split_on_nonempty(p, sep);
        }
        if c == sep {
            let ghost old_done = done@;
            let finished = cur;
            done.push(finished);
            cur = Vec::new();
            assert(char_views(done@) == char_views(old_done).push(finished@));
        } else {
            let ghost old_cur = cur@;
            cur.push(c);
            let ghost ss = split_on(p, sep);
            assert(char_views(done@).push(cur@) == ss.update(ss.len() - 1, ss.last().push(c)));
        }
    }
    assert(s@.take(n as int) == s@);
    let ghost old_done = done@;
    done.push(cur);
    assert(char_views(done@) == char_views(old_done).push(cur@));
    done
}

/// Does `needle` occur in `hay` starting at position `i`?
pub open spec fn occurs_at(hay: Seq<char>, needle: Seq<char>, i: int) -> bool {
    0 <= i && i + needle.len() <= hay.len() && hay.subrange(i, i + needle.len()) == needle
}

/// Does `needle` occur anywhere in `hay` (`str::contains`)?
pub open spec fn contains_seq(hay: Seq<char>, needle: Seq<char>) -> bool {
    exists|i: int| occurs_at(hay, needle, i)
}

fn occurs_at_exec(hay: &Vec<char>, needle: &Vec<char>, i: usize) -> (r: bool)
    requires
        i + needle@.len() <= hay@.len(),
    ensures
        r == occurs_at(hay@, needle@, i as int),
{
    let m = needle.len();
    let hl = hay.len();
    for j in 0..m
        invariant
            m == needle@.len(),
            hl == hay@.len(),
            i + m <= hl,
            forall|k: int| 0 <= k < j ==> hay@[i + k] == needle@[k],
    {
        if hay[i + j] != needle[j] {
            assert(hay@.subrange(i as int, i + m)[j as int] != needle@[j as int]);
            return false;
        }
    }
    assert(hay@.subrange(i as int, i + m) == needle@);
    true
}

/// Searches for `needle` in `hay`.
pub fn contains_chars(hay: &Vec<char>, needle: &Vec<char>) -> (r: bool)
    ensures
        r == contains_seq(hay@, needle@),
{
    if needle.len() > hay.len() {
        return false;
    }
    if needle.len() == 0 {
        assert(hay@.subrange(0, 0) == needle@);
        assert(occurs_at(hay@, needle@, 0));
        return true;
    }
    let hl = hay.len();
    let last = hl - needle.len();
    let mut i: usize = 0;
    while i <= last
        invariant
            hl == hay@.len(),
            needle@.len() > 0,
            last == hay@.len() - needle@.len(),
            forall|k: int| 0 <= k < i ==> !occurs_at(hay@, needle@, k),
        decreases last + 1 - i,
    {
        if occurs_at_exec(hay, needle, i) {
            return true;
        }
        i = i + 1;
    }
    false
}


// ---------------------------------------------------------------------------
// Number formatting
// ---------------------------------------------------------------------------
/// The lowercase hexadecimal digit for `d` in `0..16`.
pub open spec fn hex_digit(d: int) -> char {
    if d < 10 {
        (48 + d) as char
    } else {
        (87 + d) as char
    }
}

/// `h` as exactly 16 lowercase hexadecimal digits, most significant first (`{:016x}`).
pub open spec fn hex16(h: u64) -> Seq<char> {
    Seq::new(16, |i: int| hex_digit((h as int / pow(16, (15 - i) as nat)) % 16))
}

fn hex_digit_char(d: u64) -> (r: char)
    requires
        d < 16,
    ensures
        r == hex_digit(d as int),
{
    if d < 10 {
        ((48 + d) as u8) as char
    } else {
        ((87 + d) as u8) as char
    }
}

/// Formats `h` as 16 lowercase hexadecimal digits.
pub fn hex16_string(h: u64) -> (r: String)
    ensures
        r@ == hex16(h),
{
    let mut rev: Vec<char> = Vec::new();
    let mut cur = h;
    proof {
        reveal(pow);
        assert(pow(16, 0) == 1);
    }
    for k in 0..16u64
        invariant
            cur as int == h as int / pow(16, k as nat),
            rev@.len() == k,
            forall|j: int| 0 <= j < k ==> #[trigger] rev@[j] == hex_digit((h as int / pow(16, j as nat)) % 16),
    {
        let d = hex_digit_char(cur % 16);
        rev.push(d);
        proof {
            reveal(pow);
            lemma_pow_positive(16, k as nat);
            lemma_div_denominator(h as int, pow(16, k as nat), 16);
            assert(pow(16, (k + 1) as nat) == 16 * pow(16, k as nat));
            assert(pow(16, k as nat) * 16 == 16 * pow(16, k as nat)) by (nonlinear_arith);
        }
        cur = cur / 16;
    }
    let mut out: Vec<char> = Vec::new();
    for i in 0..16usize
        invariant
            rev@.len() == 16,
            forall|j: int| 0 <= j < 16 ==> #[trigger] rev@[j] == hex_digit((h as int / pow(16, j as nat)) % 16),
            out@ == hex16(h).take(i as int),
    {
        out.push(rev[15 - i]);
        assert(out@ == hex16(h).take(i + 1));
    }
    assert(hex16(h).take(16) == hex16(h));
    string_of(&out)
}

/// The decimal digit for `d` in `0..10`.
pub open spec fn decimal_digit(d: int) -> char {
    (48 + d) as char
}

/// The decimal representation of `n` without leading zeros (`u32`'s `Display`).
pub open spec fn decimal(n: nat) -> Seq<char>
    decreases n,
{
    if n < 10 {
        seq![decimal_digit(n as int)]
    } else {
        decimal(n / 10).push(decimal_digit((n % 10) as int))
    }
}

fn decimal_chars(n: u32) -> (r: Vec<char>)
    ensures
        r@ == decimal(n as nat),
    decreases n,
{
    let d = ((48 + n % 10) as u8) as char;
    if n < 10 {
        let mut v: Vec<char> = Vec::new();
        v.push(d);
        v
    } else {
        let mut v = decimal_chars(n / 10);
        v.push(d);
        v
    }
}

/// Formats `n` in decimal.
pub fn decimal_string(n: u32) -> (r: String)
    ensures
        r@ == decimal(n as nat),
{
    string_of(&decimal_chars(n))
}

/// The 64-bit FNV-1a hash of a byte sequence.
pub open spec fn fnv1a(bytes: Seq<u8>) -> u64
    decreases bytes.len(),
{
    if bytes.len() == 0 {
        1469598103934665603u64
    } else {
        (fnv1a(bytes.drop_last()) ^ (bytes.last() as u64)).wrapping_mul(1099511628211u64)
    }
}

/// Hashes the UTF-8 bytes of a string with 64-bit FNV-1a.
pub fn fnv1a_str(value: &str) -> (r: u64)
    ensures
        r == fnv1a(value.spec_bytes()),
{
    let bytes = value.as_bytes();
    let n = bytes.len();
    let mut hash: u64 = 1469598103934665603;
    for i in 0..n
        invariant
            n == bytes@.len(),
            bytes@ == value.spec_bytes(),
            hash == fnv1a(bytes@.take(i as int)),
    {
        assert(bytes@.take(i + 1).drop_last() == bytes@.take(i as int));
        hash = (hash ^ (bytes[i] as u64)).wrapping_mul(1099511628211);
    }
    assert(bytes@.take(n as int) == bytes@);
    hash
}

// ---------------------------------------------------------------------------
// Unicode lower-casing
// ---------------------------------------------------------------------------
/// The text that `str::to_lowercase` gives for `s`.
pub uninterp spec fn lowercase(s: Seq<char>) -> Seq<char>;

/// Calls `str::to_lowercase`.
///
/// Trusted: the result depends on the text alone (std documents the mapping by the Unicode
/// `Lowercase` property); what that mapping is, is not stated.
#[verifier::external_body]
pub(crate) fn to_lowercase(s: &str) -> (r: String)
    ensures
        r@ == lowercase(s@),
{
    s.to_lowercase()
}

} // verus!
