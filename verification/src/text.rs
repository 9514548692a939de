//! Character-level helpers on strings, each proved against a plain statement.
use vstd::prelude::*;
use vstd::utf8::*;

verus! {

broadcast use vstd::std_specs::iter::group_iter_axioms, vstd::string::group_string_axioms;

/// Appends one character to a string (`String::push`).
#[verifier::external_body]
pub(crate) fn push_char(s: &mut String, c: char)
    ensures
        final(s)@ == old(s)@.push(c),
{
    s.push(c)
}

/// The characters of a string slice, in order.
pub fn chars_of(s: &str) -> (v: Vec<char>)
    ensures
        v@ == s@,
{
    let mut v: Vec<char> = Vec::new();
    for c in it: s.chars()
        invariant
            it.seq() == s@,
            v@ == s@.take(it.index() as int),
    {
        v.push(c);
        assert(v@ =~= s@.take(it.index() as int + 1));
    }
    assert(v@ =~= s@);
    v
}


/// Whether two string slices hold the same characters.
pub fn str_eq(a: &str, b: &str) -> (r: bool)
    ensures
        r == (a@ == b@),
{
    let x = chars_of(a);
    let y = chars_of(b);
    if x.len() != y.len() {
        return false;
    }
    let mut i: usize = 0;
    while i < x.len()
        invariant
            x@ == a@,
            y@ == b@,
            x.len() == y.len(),
            0 <= i <= x.len(),
            forall|j: int| 0 <= j < i ==> x@[j] == y@[j],
        decreases x.len() - i,
    {
        if x[i] != y[i] {
            return false;
        }
        i += 1;
    }
    assert(x@ =~= y@);
    true
}

/// The Unicode lowercase mapping of a character sequence, as `str::to_lowercase` computes it.
pub uninterp spec fn lowercase_of(s: Seq<char>) -> Seq<char>;

/// Whether every character is ASCII.
pub open spec fn all_ascii(s: Seq<char>) -> bool {
    forall|i: int| 0 <= i < s.len() ==> (#[trigger] s[i] as u32) < 0x80
}

/// ASCII text with `A`..`Z` turned into `a`..`z`.
pub open spec fn ascii_lower(s: Seq<char>) -> Seq<char> {
    s.map_values(|c: char| if 'A' <= c && c <= 'Z' { ((c as u32) + 32) as char } else { c })
}

/// ASCII text with `a`..`z` turned into `A`..`Z`.
pub open spec fn ascii_upper(s: Seq<char>) -> Seq<char> {
    s.map_values(|c: char| if 'a' <= c && c <= 'z' { ((c as u32) - 32) as char } else { c })
}

/// Calls `str::to_lowercase`. Its result is named `lowercase_of` of the argument's
/// characters; the Unicode case tables themselves are not stated, only that
/// text of ASCII characters (the empty text among them) is lowercased
/// character by character, `A`..`Z` to `a`..`z`.
#[verifier::external_body]
pub(crate) fn to_lowercase(s: &str) -> (r: String)
    ensures
        r@ == lowercase_of(s@),
        all_ascii(s@) ==> r@ == ascii_lower(s@),
{
    s.to_lowercase()
}


/// Builds a string from the characters `cs[lo..hi]`.
pub fn string_from_range(cs: &Vec<char>, lo: usize, hi: usize) -> (s: String)
    requires
        lo <= hi <= cs.len(),
    ensures
        s@ == cs@.subrange(lo as int, hi as int),
{
    let mut s = String::new();
    let mut i: usize = lo;
    while i < hi
        invariant
            lo <= i <= hi <= cs.len(),
            s@ == cs@.subrange(lo as int, i as int),
        decreases hi - i,
    {
        push_char(&mut s, cs[i]);
        i += 1;
        assert(s@ =~= cs@.subrange(lo as int, i as int));
    }
    s
}

/// Characters that `char::is_whitespace` accepts: the Unicode `White_Space` property.
pub open spec fn is_white_space(c: char) -> bool {
    ||| ('\u{9}' <= c && c <= '\u{d}')
    ||| c == ' '
    ||| c == '\u{85}'
    ||| c == '\u{a0}'
    ||| c == '\u{1680}'
    ||| ('\u{2000}' <= c && c <= '\u{200a}')
    ||| c == '\u{2028}'
    ||| c == '\u{2029}'
    ||| c == '\u{202f}'
    ||| c == '\u{205f}'
    ||| c == '\u{3000}'
}

/// Whether `c` is Unicode white space.
pub fn is_whitespace(c: char) -> (b: bool)
    ensures
        b == is_white_space(c),
{
    ('\u{9}' <= c && c <= '\u{d}') || c == ' ' || c == '\u{85}' || c == '\u{a0}' || c == '\u{1680}'
        || ('\u{2000}' <= c && c <= '\u{200a}') || c == '\u{2028}' || c == '\u{2029}' || c
        == '\u{202f}' || c == '\u{205f}' || c == '\u{3000}'
}

/// `s` without its trailing white space.
pub open spec fn trim_end(s: Seq<char>) -> Seq<char>
    decreases s.len(),
{
    if s.len() > 0 && is_white_space(s.last()) {
        trim_end(s.drop_last())
    } else {
        s
    }
}

/// `s` without its leading white space.
pub open spec fn trim_start(s: Seq<char>) -> Seq<char>
    decreases s.len(),
{
    if s.len() > 0 && is_white_space(s[0]) {
        trim_start(s.drop_first())
    } else {
        s
    }
}

/// `s` without leading or trailing white space.
pub open spec fn trim(s: Seq<char>) -> Seq<char> {
    trim_end(trim_start(s))
}

/// End of `cs[lo..hi]` once trailing white space is dropped.
pub fn trim_end_index(cs: &Vec<char>, lo: usize, hi: usize) -> (e: usize)
    requires
        lo <= hi <= cs.len(),
    ensures
        lo <= e <= hi,
        trim_end(cs@.subrange(lo as int, hi as int)) == cs@.subrange(lo as int, e as int),
{
    let mut e = hi;
    while e > lo && is_whitespace(cs[e - 1])
        invariant
            lo <= e <= hi <= cs.len(),
            trim_end(cs@.subrange(lo as int, hi as int)) == trim_end(
                cs@.subrange(lo as int, e as int),
            ),
        decreases e,
    {
        assert(cs@.subrange(lo as int, e as int).drop_last() =~= cs@.subrange(
            lo as int,
            e - 1,
        ));
        e -= 1;
    }
    e
}

/// Start of `cs[lo..hi]` once leading white space is dropped.
pub fn trim_start_index(cs: &Vec<char>, lo: usize, hi: usize) -> (b: usize)
    requires
        lo <= hi <= cs.len(),
    ensures
        lo <= b <= hi,
        trim_start(cs@.subrange(lo as int, hi as int)) == cs@.subrange(b as int, hi as int),
{
    let mut b = lo;
    while b < hi && is_whitespace(cs[b])
        invariant
            lo <= b <= hi <= cs.len(),
            trim_start(cs@.subrange(lo as int, hi as int)) == trim_start(
                cs@.subrange(b as int, hi as int),
            ),
        decreases hi - b,
    {
        assert(cs@.subrange(b as int, hi as int).drop_first() =~= cs@.subrange(
            b + 1,
            hi as int,
        ));
        b += 1;
    }
    b
}

/// Whether `p` occurs in `t` starting at position `i`.
pub open spec fn occurs_at(t: Seq<char>, p: Seq<char>, i: int) -> bool {
    0 <= i && i + p.len() <= t.len() && t.subrange(i, i + p.len()) == p
}

/// The first position at which `p` occurs in `t`, as `str::find` reports it.
#[verifier::opaque]
pub open spec fn first_occurrence(t: Seq<char>, p: Seq<char>) -> Option<int> {
    if exists|i: int| occurs_at(t, p, i) {
        Some(
            choose|i: int|
                occurs_at(t, p, i) && forall|j: int| 0 <= j < i ==> !#[trigger] occurs_at(t, p, j),
        )
    } else {
        None
    }
}

/// The last position at which the character `c` occurs in `t`, as `str::rfind` reports it.
#[verifier::opaque]
pub open spec fn last_position(t: Seq<char>, c: char) -> Option<int> {
    if exists|i: int| 0 <= i < t.len() && t[i] == c {
        Some(
            choose|i: int|
                0 <= i < t.len() && t[i] == c && forall|j: int| i < j < t.len() ==> t[j] != c,
        )
    } else {
        None
    }
}

/// An optional index seen as a mathematical integer.
pub open spec fn opt_int(o: Option<usize>) -> Option<int> {
    match o {
        Some(i) => Some(i as int),
        None => None,
    }
}

/// Whether `p` occurs in `t` at position `i`.
pub fn occurs_at_exec(t: &Vec<char>, p: &Vec<char>, i: usize) -> (b: bool)
    ensures
        b == occurs_at(t@, p@, i as int),
{
    if i > t.len() || p.len() > t.len() - i {
        return false;
    }
    let mut k: usize = 0;
    while k < p.len()
        invariant
            i + p.len() <= t.len(),
            0 <= k <= p.len(),
            forall|j: int| 0 <= j < k ==> t@[i + j] == p@[j],
        decreases p.len() - k,
    {
        if t[i + k] != p[k] {
            assert(t@.subrange(i as int, i + p.len())[k as int] != p@[k as int]);
            return false;
        }
        k += 1;
    }
    assert(t@.subrange(i as int, i + p.len()) =~= p@);
    true
}

/// First position of `p` in `t`.
pub fn find_seq(t: &Vec<char>, p: &Vec<char>) -> (r: Option<usize>)
    ensures
        opt_int(r) == first_occurrence(t@, p@),
        r matches Some(i) ==> occurs_at(t@, p@, i as int),
        r is Some <==> exists|i: int| occurs_at(t@, p@, i),
{
    reveal(first_occurrence);
    if p.len() > t.len() {
        assert(!exists|i: int| occurs_at(t@, p@, i));
        return None;
    }
    if p.len() == 0 {
        assert(occurs_at(t@, p@, 0)) by {
            assert(t@.subrange(0, 0) =~= p@);
        }
        let ghost k = choose|k: int|
            occurs_at(t@, p@, k) && forall|j: int| 0 <= j < k ==> !#[trigger] occurs_at(t@, p@, j);
        assert(k == 0) by {
            if k > 0 {
                assert(!occurs_at(t@, p@, 0));
            }
        }
        return Some(0);
    }
    let last = t.len() - p.len();
    let mut i: usize = 0;
    while i <= last
        invariant
            last == t.len() - p.len(),
            p.len() > 0,
            0 <= i <= last + 1,
            forall|j: int| 0 <= j < i ==> !#[trigger] occurs_at(t@, p@, j),
        decreases last + 1 - i,
    {
        if occurs_at_exec(t, p, i) {
            proof {
                reveal(first_occurrence);
            }
            let ghost k = choose|k: int|
                occurs_at(t@, p@, k) && forall|j: int| 0 <= j < k ==> !#[trigger] occurs_at(t@, p@, j);
            assert(occurs_at(t@, p@, k) && forall|j: int| 0 <= j < k ==> !#[trigger] occurs_at(t@, p@, j));
            assert(k == i) by {
                if k < i {
                    assert(!occurs_at(t@, p@, k));
                } else if k > i {
                    assert(!occurs_at(t@, p@, i as int));
                }
            }
            return Some(i);
        }
        i += 1;
    }
    assert(!exists|j: int| occurs_at(t@, p@, j));
    proof {
        reveal(first_occurrence);
    }
    None
}

/// Last position of `c` in `t`.
pub fn rfind_char(t: &Vec<char>, c: char) -> (r: Option<usize>)
    ensures
        opt_int(r) == last_position(t@, c),
        r matches Some(i) ==> i < t@.len() && t@[i as int] == c,
{
    reveal(last_position);
    let mut i: usize = t.len();
    while i > 0
        invariant
            0 <= i <= t.len(),
            forall|j: int| i <= j < t.len() ==> t@[j] != c,
        decreases i,
    {
        if t[i - 1] == c {
            proof {
                reveal(last_position);
            }
            let ghost w = (i - 1) as int;
            assert(0 <= w < t@.len() && t@[w] == c);
            let ghost k = choose|k: int|
                0 <= k < t@.len() && t@[k] == c && forall|j: int| k < j < t@.len() ==> t@[j] != c;
            assert(k == w);
            return Some(i - 1);
        }
        i -= 1;
    }
    proof {
        reveal(last_position);
    }
    None
}


/// Calls `String::from_utf8`, which accepts exactly the valid UTF-8 byte
/// sequences and then holds those very bytes.
#[verifier::external_body]
fn string_from_utf8(bytes: Vec<u8>) -> (r: Option<String>)
    ensures
        r is Some <==> valid_utf8(bytes@),
        r matches Some(s) ==> encode_utf8(s@) == bytes@,
{
    String::from_utf8(bytes).ok()
}

/// A cut of valid UTF-8 between two character boundaries is valid UTF-8.
pub proof fn lemma_cut_valid(b: Seq<u8>, lo: int, hi: int)
    requires
        valid_utf8(b),
        0 <= lo <= hi <= b.len(),
        is_char_boundary(b, lo),
        is_char_boundary(b, hi),
    ensures
        valid_utf8(b.subrange(lo, hi)),
{
    valid_utf8_split(b, hi);
    let pre = b.subrange(0, hi);
    if lo == hi {
        assert(b.subrange(lo, hi) =~= Seq::<u8>::empty());
    } else {
        if lo > 0 {
            is_char_boundary_iff_not_is_continuation_byte(b, lo);
            is_char_boundary_iff_not_is_continuation_byte(pre, lo);
        }
        valid_utf8_split(pre, lo);
        assert(pre.subrange(lo, pre.len() as int) =~= b.subrange(lo, hi));
    }
}

/// A position holding an ASCII byte is a character boundary.
pub proof fn lemma_ascii_boundary(b: Seq<u8>, i: int)
    requires
        valid_utf8(b),
        0 <= i < b.len(),
        b[i] < 0x80,
    ensures
        is_char_boundary(b, i),
{
    is_char_boundary_iff_not_is_continuation_byte(b, i);
}

/// The position right after a leading ASCII byte is a character boundary.
pub proof fn lemma_after_ascii_head(b: Seq<u8>)
    requires
        valid_utf8(b),
        b.len() > 0,
        b[0] < 0x80,
    ensures
        is_char_boundary(b, 1),
{
    reveal_with_fuel(is_char_boundary, 2);
    is_char_boundary_start_end_of_seq(pop_first_scalar(b));
}

/// The text held by the bytes `b[lo..hi]`.
pub fn decode_range(b: &[u8], lo: usize, hi: usize) -> (s: String)
    requires
        valid_utf8(b@),
        lo <= hi <= b@.len(),
        is_char_boundary(b@, lo as int),
        is_char_boundary(b@, hi as int),
    ensures
        s@ == decode_utf8(b@.subrange(lo as int, hi as int)),
{
    let mut v: Vec<u8> = Vec::new();
    let mut i: usize = lo;
    while i < hi
        invariant
            lo <= i <= hi <= b@.len(),
            v@ == b@.subrange(lo as int, i as int),
        decreases hi - i,
    {
        v.push(b[i]);
        i += 1;
        assert(v@ =~= b@.subrange(lo as int, i as int));
    }
    proof {
        lemma_cut_valid(b@, lo as int, hi as int);
    }
    match string_from_utf8(v) {
        Some(s) => {
            proof {
                encode_utf8_decode_utf8(s@);
            }
            s
        },
        None => String::new(),
    }
}


/// Lexicographic order on character sequences, as `String`'s `Ord` compares them.
pub open spec fn lex_less(a: Seq<char>, b: Seq<char>) -> bool
    decreases a.len(),
{
    if a.len() == 0 {
        b.len() > 0
    } else if b.len() == 0 {
        false
    } else if a[0] != b[0] {
        a[0] < b[0]
    } else {
        lex_less(a.drop_first(), b.drop_first())
    }
}

pub proof fn lemma_lex_irreflexive(a: Seq<char>)
    ensures
        !lex_less(a, a),
    decreases a.len(),
{
    if a.len() > 0 {
        lemma_lex_irreflexive(a.drop_first());
    }
}

pub proof fn lemma_lex_transitive(a: Seq<char>, b: Seq<char>, c: Seq<char>)
    requires
        lex_less(a, b),
        lex_less(b, c),
    ensures
        lex_less(a, c),
    decreases a.len(),
{
    if a.len() > 0 && b.len() > 0 && c.len() > 0 && a[0] == b[0] && b[0] == c[0] {
        lemma_lex_transitive(a.drop_first(), b.drop_first(), c.drop_first());
    }
}

pub proof fn lemma_lex_total(a: Seq<char>, b: Seq<char>)
    ensures
        a == b || lex_less(a, b) || lex_less(b, a),
    decreases a.len(),
{
    if a.len() > 0 && b.len() > 0 && a[0] == b[0] {
        lemma_lex_total(a.drop_first(), b.drop_first());
        if a.drop_first() == b.drop_first() {
            assert(a =~= seq![a[0]] + a.drop_first());
            assert(b =~= seq![b[0]] + b.drop_first());
        }
    } else if a.len() == 0 && b.len() == 0 {
        assert(a =~= b);
    }
}

pub proof fn lemma_lex_asymmetric(a: Seq<char>, b: Seq<char>)
    ensures
        !(lex_less(a, b) && lex_less(b, a)),
{
    if lex_less(a, b) && lex_less(b, a) {
        lemma_lex_transitive(a, b, a);
        lemma_lex_irreflexive(a);
    }
}

/// Whether `a` sorts before `b`.
pub fn chars_less(a: &Vec<char>, b: &Vec<char>) -> (r: bool)
    ensures
        r == lex_less(a@, b@),
{
    let mut i: usize = 0;
    assert(a@.skip(0) =~= a@);
    assert(b@.skip(0) =~= b@);
    while i < a.len() && i < b.len() && a[i] == b[i]
        invariant
            0 <= i <= a.len(),
            i <= b.len(),
            lex_less(a@, b@) == lex_less(a@.skip(i as int), b@.skip(i as int)),
        decreases a.len() - i,
    {
        assert(a@.skip(i as int).drop_first() =~= a@.skip(i + 1));
        assert(b@.skip(i as int).drop_first() =~= b@.skip(i + 1));
        i += 1;
    }
    if i == a.len() {
        i < b.len()
    } else if i == b.len() {
        false
    } else {
        a[i] < b[i]
    }
}

/// Whether string `a` sorts before string `b`.
pub fn str_less(a: &str, b: &str) -> (r: bool)
    ensures
        r == lex_less(a@, b@),
{
    chars_less(&chars_of(a), &chars_of(b))
}


/// First position at or after `i` that does not hold white space.
pub open spec fn skip_space(s: Seq<char>, i: int) -> int
    decreases s.len() - i,
{
    if 0 <= i < s.len() && is_white_space(s[i]) {
        skip_space(s, i + 1)
    } else {
        i
    }
}

/// First position at or after `i` that holds white space (or the end).
pub open spec fn word_end(s: Seq<char>, i: int) -> int
    decreases s.len() - i,
{
    if 0 <= i < s.len() && !is_white_space(s[i]) {
        word_end(s, i + 1)
    } else {
        i
    }
}

pub proof fn lemma_skip_space_bounds(s: Seq<char>, i: int)
    requires
        0 <= i <= s.len(),
    ensures
        i <= skip_space(s, i) <= s.len(),
        skip_space(s, i) < s.len() ==> !is_white_space(s[skip_space(s, i)]),
    decreases s.len() - i,
{
    if i < s.len() && is_white_space(s[i]) {
        lemma_skip_space_bounds(s, i + 1);
    }
}

pub proof fn lemma_word_end_bounds(s: Seq<char>, i: int)
    requires
        0 <= i <= s.len(),
    ensures
        i <= word_end(s, i) <= s.len(),
        i < s.len() && !is_white_space(s[i]) ==> i < word_end(s, i),
    decreases s.len() - i,
{
    if i < s.len() && !is_white_space(s[i]) {
        lemma_word_end_bounds(s, i + 1);
    }
}

/// The white-space separated words of `s` from position `i` on.
pub open spec fn words_from(s: Seq<char>, i: int) -> Seq<Seq<char>>
    decreases s.len() - i,
{
    if i < 0 || i >= s.len() {
        seq![]
    } else {
        let j = skip_space(s, i);
        proof {
            lemma_skip_space_bounds(s, i);
        }
        if j >= s.len() {
            seq![]
        } else {
            let k = word_end(s, j);
            proof {
                lemma_word_end_bounds(s, j);
            }
            seq![s.subrange(j, k)] + words_from(s, k)
        }
    }
}

/// The words of `s`, as `str::split_whitespace` yields them.
pub open spec fn words(s: Seq<char>) -> Seq<Seq<char>> {
    words_from(s, 0)
}

/// Splits at white space, dropping empty pieces.
pub fn split_whitespace(s: &str) -> (v: Vec<String>)
    ensures
        v@.map_values(|w: String| w@) == words(s@),
{
    let cs = chars_of(s);
    let n = cs.len();
    let mut v: Vec<String> = Vec::new();
    let mut i: usize = 0;
    while i < n
        invariant
            n == cs@.len(),
            cs@ == s@,
            0 <= i <= n,
            words(s@) == v@.map_values(|w: String| w@) + words_from(cs@, i as int),
        decreases n - i,
    {
        let mut j = i;
        while j < n && is_whitespace(cs[j])
            invariant
                n == cs@.len(),
                i <= j <= n,
                skip_space(cs@, i as int) == skip_space(cs@, j as int),
            decreases n - j,
        {
            j += 1;
        }
        proof {
            lemma_skip_space_bounds(cs@, i as int);
        }
        if j == n {
            assert(words_from(cs@, i as int) =~= Seq::<Seq<char>>::empty());
            i = n;
        } else {
            let mut k = j;
            while k < n && !is_whitespace(cs[k])
                invariant
                    n == cs@.len(),
                    j <= k <= n,
                    word_end(cs@, j as int) == word_end(cs@, k as int),
                decreases n - k,
            {
                k += 1;
            }
            proof {
                lemma_word_end_bounds(cs@, j as int);
            }
            let w = string_from_range(&cs, j, k);
            let ghost before = v@;
            v.push(w);
            assert(v@.map_values(|w: String| w@) =~= before.map_values(|w: String| w@).push(w@));
            assert(words_from(cs@, i as int) =~= seq![w@] + words_from(cs@, k as int));
            i = k;
        }
    }
    assert(words_from(cs@, n as int) =~= Seq::<Seq<char>>::empty());
    v
}

/// Whether `needle` occurs in `hay`.
pub fn contains_str(hay: &str, needle: &str) -> (b: bool)
    ensures
        b == exists|i: int| occurs_at(hay@, needle@, i),
{
    let h = chars_of(hay);
    let n = chars_of(needle);
    find_seq(&h, &n).is_some()
}

/// Copies a list of strings.
pub fn clone_strings(v: &Vec<String>) -> (r: Vec<String>)
    ensures
        r@ == v@,
{
    let mut r: Vec<String> = Vec::new();
    let mut i: usize = 0;
    while i < v.len()
        invariant
            0 <= i <= v.len(),
            r@ == v@.take(i as int),
        decreases v.len() - i,
    {
        r.push(v[i].clone());
        i += 1;
        assert(r@ =~= v@.take(i as int));
    }
    assert(v@.take(v.len() as int) =~= v@);
    r
}


/// A word: non-empty, without white space.
pub open spec fn is_word(w: Seq<char>) -> bool {
    w.len() > 0 && forall|i: int| 0 <= i < w.len() ==> !is_white_space(#[trigger] w[i])
}

proof fn lemma_skip_space_shift(x: Seq<char>, y: Seq<char>, i: int)
    requires
        0 <= i <= y.len(),
    ensures
        skip_space(x + y, x.len() + i) == x.len() + skip_space(y, i),
    decreases y.len() - i,
{
    if i < y.len() {
        assert((x + y)[x.len() + i] == y[i]);
        lemma_skip_space_shift(x, y, i + 1);
    }
}

proof fn lemma_word_end_shift(x: Seq<char>, y: Seq<char>, i: int)
    requires
        0 <= i <= y.len(),
    ensures
        word_end(x + y, x.len() + i) == x.len() + word_end(y, i),
    decreases y.len() - i,
{
    if i < y.len() {
        assert((x + y)[x.len() + i] == y[i]);
        lemma_word_end_shift(x, y, i + 1);
    }
}

/// The words after a prefix are the words of what follows it.
proof fn lemma_words_from_shift(x: Seq<char>, y: Seq<char>, i: int)
    requires
        0 <= i <= y.len(),
    ensures
        words_from(x + y, x.len() + i) == words_from(y, i),
    decreases y.len() - i,
{
    let s = x + y;
    if i < y.len() {
        lemma_skip_space_shift(x, y, i);
        lemma_skip_space_bounds(y, i);
        let j = skip_space(y, i);
        if j < y.len() {
            lemma_word_end_shift(x, y, j);
            lemma_word_end_bounds(y, j);
            let k = word_end(y, j);
            assert(s.subrange(x.len() + j, x.len() + k) =~= y.subrange(j, k));
            lemma_words_from_shift(x, y, k);
        }
    }
}

proof fn lemma_skip_space_prefix(p: Seq<char>, r: Seq<char>, i: int)
    requires
        0 <= i <= p.len(),
    ensures
        skip_space(p, i) < p.len() ==> skip_space(p + r, i) == skip_space(p, i),
        skip_space(p, i) >= p.len() ==> skip_space(p + r, i) == skip_space(p + r, p.len() as int),
    decreases p.len() - i,
{
    lemma_skip_space_bounds(p, i);
    if i < p.len() {
        assert((p + r)[i] == p[i]);
        lemma_skip_space_prefix(p, r, i + 1);
    }
}

proof fn lemma_word_end_prefix(p: Seq<char>, r: Seq<char>, j: int)
    requires
        0 <= j <= p.len(),
        r.len() == 0 || is_white_space(r[0]),
    ensures
        word_end(p + r, j) == word_end(p, j),
    decreases p.len() - j,
{
    if j < p.len() {
        assert((p + r)[j] == p[j]);
        lemma_word_end_prefix(p, r, j + 1);
    } else if r.len() > 0 {
        assert((p + r)[j] == r[0]);
    }
}

/// From a position, the words depend only on where the next word starts.
proof fn lemma_words_from_skip(s: Seq<char>, a: int, b: int)
    requires
        0 <= a <= b <= s.len(),
        skip_space(s, a) == skip_space(s, b),
    ensures
        words_from(s, a) == words_from(s, b),
{
    lemma_skip_space_bounds(s, a);
    lemma_skip_space_bounds(s, b);
}

/// Cutting before white space splits the words there.
proof fn lemma_words_from_prefix(p: Seq<char>, r: Seq<char>, i: int)
    requires
        0 <= i <= p.len(),
        r.len() == 0 || is_white_space(r[0]),
    ensures
        words_from(p + r, i) == words_from(p, i) + words_from(p + r, p.len() as int),
    decreases p.len() - i,
{
    let s = p + r;
    if i == p.len() {
        assert(words_from(p, i) =~= Seq::<Seq<char>>::empty());
        assert(words_from(p, i) + words_from(s, p.len() as int) =~= words_from(s, p.len() as int));
    } else {
        lemma_skip_space_prefix(p, r, i);
        lemma_skip_space_bounds(p, i);
        let jp = skip_space(p, i);
        if jp < p.len() {
            lemma_word_end_prefix(p, r, jp);
            lemma_word_end_bounds(p, jp);
            let kp = word_end(p, jp);
            assert(s.subrange(jp, kp) =~= p.subrange(jp, kp));
            lemma_words_from_prefix(p, r, kp);
            assert(words_from(s, i) == seq![p.subrange(jp, kp)] + words_from(s, kp));
            assert(words_from(p, i) == seq![p.subrange(jp, kp)] + words_from(p, kp));
            assert(words_from(s, i) =~= words_from(p, i) + words_from(s, p.len() as int));
        } else {
            lemma_skip_space_bounds(s, p.len() as int);
            lemma_words_from_skip(s, i, p.len() as int);
            assert(words_from(p, i) =~= Seq::<Seq<char>>::empty());
            assert(words_from(p, i) + words_from(s, p.len() as int) =~= words_from(s, p.len() as int));
        }
    }
}

/// The words of two texts joined by a space are the words of each in turn.
pub proof fn lemma_words_of_spaced(p: Seq<char>, q: Seq<char>)
    ensures
        words(p + seq![' '] + q) == words(p) + words(q),
{
    let r = seq![' '] + q;
    let s = p + r;
    assert(p + seq![' '] + q =~= s);
    assert(is_white_space(r[0]));
    lemma_words_from_prefix(p, r, 0);
    let n = p.len() as int;
    assert(s[n] == ' ');
    assert(skip_space(s, n) == skip_space(s, n + 1));
    lemma_words_from_skip(s, n, n + 1);
    let x = p + seq![' '];
    assert(s =~= x + q);
    lemma_words_from_shift(x, q, 0);
}

proof fn lemma_word_end_of_word(w: Seq<char>, i: int)
    requires
        is_word(w),
        0 <= i <= w.len(),
    ensures
        word_end(w, i) == w.len(),
    decreases w.len() - i,
{
    if i < w.len() {
        lemma_word_end_of_word(w, i + 1);
    }
}

/// A word's only word is itself.
pub proof fn lemma_words_of_word(w: Seq<char>)
    requires
        is_word(w),
    ensures
        words(w) == seq![w],
{
    lemma_word_end_of_word(w, 0);
    assert(!is_white_space(w[0]));
    assert(skip_space(w, 0) == 0);
    assert(w.subrange(0, w.len() as int) =~= w);
    assert(words_from(w, w.len() as int) =~= Seq::<Seq<char>>::empty());
    assert(words(w) =~= seq![w]);
}

} // verus!
