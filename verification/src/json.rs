//! Locating the JSON blocks (payload and context) at the end of a log line.
use vstd::prelude::*;
use crate::text::{chars_of, string_from_range, trim_end, trim_end_index};

verus! {

/// Where the scan of a JSON string whose body starts at `j` stops: the closing
/// quote, or the end of the text. A backslash escapes the character after it.
pub open spec fn string_close(t: Seq<char>, j: int) -> int
    decreases t.len() - j,
{
    if j < 0 || j >= t.len() {
        t.len() as int
    } else if t[j] == '\\' {
        if j + 2 <= t.len() {
            string_close(t, j + 2)
        } else {
            t.len() as int
        }
    } else if t[j] == '"' {
        j
    } else {
        string_close(t, j + 1)
    }
}

pub proof fn lemma_string_close_bounds(t: Seq<char>, j: int)
    requires
        0 <= j,
    ensures
        j <= string_close(t, j) || j > t.len(),
        string_close(t, j) <= t.len(),
    decreases t.len() - j,
{
    if j < t.len() {
        if t[j] == '\\' {
            if j + 2 <= t.len() {
                lemma_string_close_bounds(t, j + 2);
            }
        } else if t[j] != '"' {
            lemma_string_close_bounds(t, j + 1);
        }
    }
}

/// Position of the brace that closes the object being scanned at `i` with
/// `depth` braces open, skipping braces inside string literals; `None` when
/// the text ends first.
pub open spec fn json_close(t: Seq<char>, i: int, depth: int) -> Option<int>
    decreases t.len() - i,
{
    if i < 0 || i >= t.len() {
        None
    } else if t[i] == '{' {
        json_close(t, i + 1, depth + 1)
    } else if t[i] == '}' {
        if depth - 1 == 0 {
            Some(i)
        } else {
            json_close(t, i + 1, depth - 1)
        }
    } else if t[i] == '"' {
        let k = string_close(t, i + 1);
        proof {
            lemma_string_close_bounds(t, i + 1);
        }
        if k + 1 >= t.len() {
            None
        } else {
            json_close(t, k + 1, depth)
        }
    } else {
        json_close(t, i + 1, depth)
    }
}

pub proof fn lemma_json_close_bounds(t: Seq<char>, i: int, depth: int)
    ensures
        json_close(t, i, depth) matches Some(e) ==> i <= e < t.len(),
    decreases t.len() - i,
{
    if 0 <= i < t.len() {
        if t[i] == '{' {
            lemma_json_close_bounds(t, i + 1, depth + 1);
        } else if t[i] == '}' {
            if depth - 1 != 0 {
                lemma_json_close_bounds(t, i + 1, depth - 1);
            }
        } else if t[i] == '"' {
            lemma_string_close_bounds(t, i + 1);
            let k = string_close(t, i + 1);
            if k + 1 < t.len() {
                lemma_json_close_bounds(t, k + 1, depth);
            }
        } else {
            lemma_json_close_bounds(t, i + 1, depth);
        }
    }
}


/// The lexical state after reading `t[s..m]`: whether the scan is inside a
/// string literal, and whether the character just read is a backslash that
/// escapes the next one in it.
pub open spec fn lexer_state(t: Seq<char>, s: int, m: int) -> (bool, bool)
    decreases m - s,
{
    if m <= s {
        (false, false)
    } else {
        let st = lexer_state(t, s, m - 1);
        let c = t[m - 1];
        if !st.0 {
            (c == '"', false)
        } else if st.1 {
            (true, false)
        } else if c == '\\' {
            (true, true)
        } else if c == '"' {
            (false, false)
        } else {
            (true, false)
        }
    }
}

/// Braces opened minus braces closed in `t[s..m]`, counting only braces
/// outside string literals.
pub open spec fn code_balance(t: Seq<char>, s: int, m: int) -> int
    decreases m - s,
{
    if m <= s {
        0
    } else {
        code_balance(t, s, m - 1) + if lexer_state(t, s, m - 1).0 {
            0int
        } else if t[m - 1] == '{' {
            1int
        } else if t[m - 1] == '}' {
            -1int
        } else {
            0int
        }
    }
}

/// Whether `e` is where the block opened at `s` closes: counting braces
/// outside strings, the count is back to zero after `e` and positive at every
/// earlier point.
pub open spec fn closes_at(t: Seq<char>, s: int, e: int) -> bool {
    &&& s <= e < t.len()
    &&& code_balance(t, s, e + 1) == 0
    &&& forall|m: int| s < m <= e ==> code_balance(t, s, m) > 0
}

/// Inside a string literal whose body starts at `j`, nothing counts up to the
/// closing quote, and after it the scan is outside strings again.
proof fn lemma_string_body(t: Seq<char>, s: int, j: int)
    requires
        0 <= s < j <= t.len(),
        lexer_state(t, s, j) == (true, false),
    ensures
        forall|m: int| j <= m <= string_close(t, j) && m <= t.len() ==> code_balance(t, s, m) == code_balance(t, s, j)
            && #[trigger] lexer_state(t, s, m).0,
        string_close(t, j) < t.len() ==> lexer_state(t, s, string_close(t, j) + 1) == (false, false)
            && code_balance(t, s, string_close(t, j) + 1) == code_balance(t, s, j),
    decreases t.len() - j,
{
    if j < t.len() {
        let d = code_balance(t, s, j);
        assert(code_balance(t, s, j + 1) == d);
        if t[j] == '\\' {
            assert(lexer_state(t, s, j + 1) == (true, true));
            if j + 2 <= t.len() {
                assert(lexer_state(t, s, j + 2) == (true, false));
                assert(code_balance(t, s, j + 2) == d);
                lemma_string_body(t, s, j + 2);
                assert(string_close(t, j) == string_close(t, j + 2));
                assert forall|m: int| j <= m <= string_close(t, j) && m <= t.len() implies code_balance(t, s, m) == d
                    && #[trigger] lexer_state(t, s, m).0 by {
                    if m >= j + 2 {
                        assert(lexer_state(t, s, m).0);
                    } else if m == j + 1 {
                        assert(lexer_state(t, s, j + 1).0);
                    }
                }
            } else {
                assert forall|m: int| j <= m <= string_close(t, j) && m <= t.len() implies code_balance(t, s, m) == d
                    && #[trigger] lexer_state(t, s, m).0 by {
                    assert(m == j || m == j + 1);
                }
            }
        } else if t[j] == '"' {
            assert(string_close(t, j) == j);
            assert(lexer_state(t, s, j + 1) == (false, false));
        } else {
            assert(lexer_state(t, s, j + 1) == (true, false));
            lemma_string_body(t, s, j + 1);
            assert(string_close(t, j) == string_close(t, j + 1));
            assert forall|m: int| j <= m <= string_close(t, j) && m <= t.len() implies code_balance(t, s, m) == d
                && #[trigger] lexer_state(t, s, m).0 by {
                if m >= j + 1 {
                    assert(lexer_state(t, s, m).0);
                }
            }
        }
    }
}

/// From a point `i` outside strings, inside the block opened at `s`, the
/// scan stops exactly at the point where the block closes.
proof fn lemma_close_is_first_zero(t: Seq<char>, s: int, i: int)
    requires
        0 <= s < i <= t.len(),
        lexer_state(t, s, i) == (false, false),
        forall|m: int| s < m <= i ==> code_balance(t, s, m) > 0,
    ensures
        json_close(t, i, code_balance(t, s, i)) is Some ==> closes_at(t, s, json_close(t, i, code_balance(t, s, i))->0),
        forall|e: int| i <= e && closes_at(t, s, e) ==> json_close(t, i, code_balance(t, s, i)) == Some(e),
    decreases t.len() - i,
{
    let d = code_balance(t, s, i);
    assert(d > 0);
    if i < t.len() {
        if t[i] == '"' {
            assert(lexer_state(t, s, i + 1) == (true, false));
            assert(code_balance(t, s, i + 1) == d);
            lemma_string_body(t, s, i + 1);
            lemma_string_close_bounds(t, i + 1);
            let k = string_close(t, i + 1);
            assert forall|e: int| i <= e && closes_at(t, s, e) implies k + 1 <= e by {
                if e <= k {
                    assert(code_balance(t, s, e + 1) == d) by {
                        if e + 1 <= k {
                            assert(code_balance(t, s, e + 1) == code_balance(t, s, i + 1));
                        }
                    }
                }
            }
            if k + 1 < t.len() {
                assert forall|m: int| s < m <= k + 1 implies code_balance(t, s, m) > 0 by {
                    if m > i && m <= k {
                        assert(code_balance(t, s, m) == code_balance(t, s, i + 1));
                    }
                }
                lemma_close_is_first_zero(t, s, k + 1);
            } else {
                assert forall|e: int| i <= e implies !closes_at(t, s, e) by {
                    if closes_at(t, s, e) {
                        assert(k + 1 <= e);
                    }
                }
            }
        } else {
            assert(lexer_state(t, s, i + 1) == (false, false));
            assert(code_balance(t, s, i + 1) == d + if t[i] == '{' { 1int } else if t[i] == '}' { -1int } else { 0int });
            if t[i] == '}' && d - 1 == 0 {
                assert forall|e: int| i <= e && closes_at(t, s, e) implies e == i by {
                    if e > i {
                        assert(code_balance(t, s, i + 1) > 0);
                    }
                }
            } else {
                lemma_close_is_first_zero(t, s, i + 1);
                assert forall|e: int| i <= e && closes_at(t, s, e) implies i + 1 <= e by {
                    if e == i {
                        assert(code_balance(t, s, i + 1) != 0);
                    }
                }
            }
        }
    }
}

/// A JSON block is balanced: the block opened by the `{` at `s` ends exactly
/// at the first `}` outside string literals that brings the count of open
/// braces (outside string literals) back to zero, so nested objects are taken
/// whole and braces inside strings do not count.
pub proof fn law_block_ends_at_balance(t: Seq<char>, s: int, e: int)
    requires
        0 <= s < t.len(),
        t[s] == '{',
    ensures
        json_close(t, s, 0) == Some(e) <==> (s <= e < t.len() && code_balance(t, s, e + 1) == 0 && forall|m: int|
            s < m <= e ==> code_balance(t, s, m) > 0),
{
    assert(lexer_state(t, s, s) == (false, false));
    assert(code_balance(t, s, s + 1) == 1) by {
        assert(code_balance(t, s, s) == 0);
    }
    assert(lexer_state(t, s, s + 1) == (false, false));
    assert(json_close(t, s, 0) == json_close(t, s + 1, 1));
    lemma_close_is_first_zero(t, s, s + 1);
    if e == s {
        assert(!closes_at(t, s, e));
    }
    if json_close(t, s, 0) is Some {
        assert(closes_at(t, s, json_close(t, s, 0)->0));
    }
    if closes_at(t, s, e) {
        assert(s + 1 <= e);
    }
}

/// Braces inside a string literal do not end a block: `{"w"}` for any `w`
/// without quotes or backslashes is one block, whatever braces `w` holds.
pub proof fn law_braces_in_strings_ignored(w: Seq<char>)
    requires
        forall|k: int| 0 <= k < w.len() ==> w[k] != '"' && w[k] != '\\',
    ensures
        json_close(seq!['{', '"'] + w + seq!['"', '}'], 0, 0) == Some(w.len() + 3int),
{
    let t = seq!['{', '"'] + w + seq!['"', '}'];
    assert forall|j: int| 2 <= j <= w.len() + 2 implies string_close(t, j) == w.len() + 2 by {
        lemma_string_close_in_word(t, w, j);
    }
    assert(t[0] == '{');
    assert(t[1] == '"');
    assert(t[w.len() + 3int] == '}');
    assert(json_close(t, 0, 0) == json_close(t, 1, 1));
    assert(json_close(t, 1, 1) == json_close(t, w.len() + 3int, 1));
}

proof fn lemma_string_close_in_word(t: Seq<char>, w: Seq<char>, j: int)
    requires
        t == seq!['{', '"'] + w + seq!['"', '}'],
        forall|k: int| 0 <= k < w.len() ==> w[k] != '"' && w[k] != '\\',
        2 <= j <= w.len() + 2,
    ensures
        string_close(t, j) == w.len() + 2,
    decreases w.len() + 2 - j,
{
    if j < w.len() + 2 {
        assert(t[j] == w[j - 2]);
        lemma_string_close_in_word(t, w, j + 1);
    } else {
        assert(t[j] == '"');
    }
}

/// The JSON blocks of `t` from position `i` on, as `(start, end)` pairs with
/// `end` exclusive: each `{` that has a matching `}` opens a block, and the
/// scan resumes after that block.
pub open spec fn json_blocks(t: Seq<char>, i: int) -> Seq<(int, int)>
    decreases t.len() - i,
{
    if i < 0 || i >= t.len() {
        seq![]
    } else if t[i] == '{' && json_close(t, i, 0) is Some {
        let e = json_close(t, i, 0)->0;
        proof {
            lemma_json_close_bounds(t, i, 0);
        }
        seq![(i, e + 1)] + json_blocks(t, e + 1)
    } else {
        json_blocks(t, i + 1)
    }
}

/// The message (text before the first block, trailing white space dropped),
/// payload (first block) and context (second block) of a line's remainder.
pub open spec fn split_json(t: Seq<char>) -> (Seq<char>, Option<Seq<char>>, Option<Seq<char>>) {
    let b = json_blocks(t, 0);
    if b.len() == 0 {
        (trim_end(t), None, None)
    } else if b.len() == 1 {
        (trim_end(t.take(b[0].0)), Some(t.subrange(b[0].0, b[0].1)), None)
    } else {
        (
            trim_end(t.take(b[0].0)),
            Some(t.subrange(b[0].0, b[0].1)),
            Some(t.subrange(b[1].0, b[1].1)),
        )
    }
}

/// Whether `p` is one whole JSON block: it opens with `{`, and counting braces
/// outside string literals, the count stays positive inside it and first
/// returns to zero at its last character, a `}`.
pub open spec fn balanced_block(p: Seq<char>) -> bool {
    &&& p.len() > 0
    &&& p[0] == '{'
    &&& p.last() == '}'
    &&& code_balance(p, 0, p.len() as int) == 0
    &&& forall|m: int| 0 < m < p.len() ==> code_balance(p, 0, m) > 0
}

/// Each block found from `i` on starts at a `{` and ends just after the brace
/// that closes it.
proof fn lemma_json_blocks_shape(t: Seq<char>, i: int)
    ensures
        forall|k: int| 0 <= k < json_blocks(t, i).len() ==> {
            let r = #[trigger] json_blocks(t, i)[k];
            &&& 0 <= r.0 < t.len()
            &&& t[r.0] == '{'
            &&& json_close(t, r.0, 0) == Some(r.1 - 1)
        },
    decreases t.len() - i,
{
    if 0 <= i < t.len() {
        if t[i] == '{' && json_close(t, i, 0) is Some {
            let e = json_close(t, i, 0)->0;
            lemma_json_close_bounds(t, i, 0);
            lemma_json_blocks_shape(t, e + 1);
            let rest = json_blocks(t, e + 1);
            let b = seq![(i, e + 1)] + rest;
            assert(json_blocks(t, i) == b);
            assert forall|k: int| 0 < k < b.len() implies b[k] == rest[k - 1] by {}
        } else {
            lemma_json_blocks_shape(t, i + 1);
        }
    }
}

/// Scanning a piece cut out of a text from `a` on reads it as the text's scan
/// from `a` does.
proof fn lemma_scan_of_piece(t: Seq<char>, a: int, b: int, m: int)
    requires
        0 <= a <= b <= t.len(),
        0 <= m <= b - a,
    ensures
        lexer_state(t.subrange(a, b), 0, m) == lexer_state(t, a, a + m),
        code_balance(t.subrange(a, b), 0, m) == code_balance(t, a, a + m),
    decreases m,
{
    if m > 0 {
        lemma_scan_of_piece(t, a, b, m - 1);
        assert(t.subrange(a, b)[m - 1] == t[a + m - 1]);
    }
}

/// The block from `a` to `b` (exclusive) that the scan finds is balanced.
proof fn lemma_found_block_balanced(t: Seq<char>, a: int, b: int)
    requires
        0 <= a < t.len(),
        t[a] == '{',
        json_close(t, a, 0) == Some(b - 1),
    ensures
        balanced_block(t.subrange(a, b)),
{
    law_block_ends_at_balance(t, a, b - 1);
    lemma_json_close_bounds(t, a, 0);
    let p = t.subrange(a, b);
    lemma_scan_of_piece(t, a, b, b - a);
    assert forall|m: int| 0 < m < p.len() implies code_balance(p, 0, m) > 0 by {
        lemma_scan_of_piece(t, a, b, m);
    }
    if b - a >= 2 {
        lemma_scan_of_piece(t, a, b, b - a - 1);
    } else {
        assert(code_balance(t, a, a + 1) == 1) by {
            assert(code_balance(t, a, a) == 0);
        }
    }
    assert(p.last() == '}') by {
        if p.last() != '}' {
            assert(code_balance(t, a, b) >= code_balance(t, a, b - 1));
            if b - 1 > a {
                assert(code_balance(t, a, b - 1) > 0);
            } else {
                assert(code_balance(t, a, b) == 1) by {
                    assert(code_balance(t, a, a) == 0);
                }
            }
        }
    }
}

/// The payload and the context of a line are each one whole JSON block: each
/// opens with `{`, closes with `}`, and counting braces outside string
/// literals the count first returns to zero at its last character, so nested
/// objects are kept whole.
pub proof fn law_payload_and_context_are_whole_blocks(t: Seq<char>)
    ensures
        split_json(t).1 matches Some(p) ==> balanced_block(p),
        split_json(t).2 matches Some(c) ==> balanced_block(c),
{
    let bl = json_blocks(t, 0);
    lemma_json_blocks_shape(t, 0);
    if bl.len() >= 1 {
        let r = bl[0];
        lemma_found_block_balanced(t, r.0, r.1);
    }
    if bl.len() >= 2 {
        let r = bl[1];
        lemma_found_block_balanced(t, r.0, r.1);
    }
}

/// Finds the `}` that closes the `{` at `start`, ignoring braces inside strings.
fn find_json_end(t: &[char], start: usize) -> (r: Option<usize>)
    requires
        start < t@.len(),
        t@[start as int] == '{',
    ensures
        match r {
            Some(e) => json_close(t@, start as int, 0) == Some(e as int),
            None => json_close(t@, start as int, 0) is None,
        },
{
    let len = t.len();
    let mut depth: usize = 0;
    let mut i: usize = start;
    while i < len
        invariant
            len == t@.len(),
            start < len,
            t@[start as int] == '{',
            start <= i,
            depth <= i,
            i == start ==> depth == 0,
            i > start ==> depth >= 1,
            json_close(t@, start as int, 0) == json_close(t@, i as int, depth as int),
        decreases len - i,
    {
        let c = t[i];
        if c == '{' {
            depth += 1;
            i += 1;
        } else if c == '}' {
            if depth - 1 == 0 {
                return Some(i);
            }
            depth -= 1;
            i += 1;
        } else if c == '"' {
            let mut j: usize = i + 1;
            while j < len
                invariant
                    len == t@.len(),
                    i < len,
                    i + 1 <= j <= len,
                    string_close(t@, i + 1) == string_close(t@, j as int),
                ensures
                    i + 1 <= j <= len,
                    string_close(t@, i + 1) == j,
                decreases len - j,
            {
                if t[j] == '\\' {
                    if len - j >= 2 {
                        j += 2;
                    } else {
                        j = len;
                    }
                    continue;
                }
                if t[j] == '"' {
                    break;
                }
                j += 1;
            }
            proof {
                lemma_string_close_bounds(t@, i + 1);
            }
            if len - j <= 1 {
                return None;
            }
            i = j + 1;
        } else {
            i += 1;
        }
    }
    None
}

/// Splits the text after `LEVEL: ` into message, payload and context.
pub fn extract_json_blocks(text: &str) -> (r: (String, Option<String>, Option<String>))
    ensures
        r.0@ == split_json(text@).0,
        match r.1 {
            Some(p) => split_json(text@).1 == Some(p@),
            None => split_json(text@).1 is None,
        },
        match r.2 {
            Some(c) => split_json(text@).2 == Some(c@),
            None => split_json(text@).2 is None,
        },
{
    let t = chars_of(text);
    let len = t.len();
    let mut ranges: Vec<(usize, usize)> = Vec::new();
    let mut i: usize = 0;
    let ghost all = json_blocks(t@, 0);
    let ghost mut got: Seq<(int, int)> = seq![];
    while i < len && ranges.len() < 2
        invariant
            len == t@.len(),
            t@ == text@,
            all == json_blocks(t@, 0),
            0 <= i <= len,
            ranges.len() <= 2,
            got.len() == ranges.len(),
            forall|k: int|
                0 <= k < ranges.len() ==> got[k] == (#[trigger] ranges@[k].0 as int, ranges@[k].1 as int)
                    && ranges@[k].0 < ranges@[k].1 <= len,
            ranges.len() < 2 ==> all == got + json_blocks(t@, i as int),
            ranges.len() == 2 ==> all.len() >= 2 && all.take(2) == got,
        decreases len - i,
    {
        if t[i] == '{' {
            proof {
                lemma_json_close_bounds(t@, i as int, 0);
            }
            if let Some(end) = find_json_end(t.as_slice(), i) {
                ranges.push((i, end + 1));
                proof {
                    let g0 = got;
                    got = got.push((i as int, end + 1));
                    assert(got =~= g0 + seq![(i as int, end + 1)]);
                    assert(all == got + json_blocks(t@, end + 1));
                    if ranges.len() == 2 {
                        assert(all.len() >= 2);
                        assert(all.take(2) =~= got);
                    }
                }
                i = end + 1;
                continue;
            }
        }
        i += 1;
    }
    assert(json_blocks(t@, len as int) =~= Seq::<(int, int)>::empty());
    if ranges.len() < 2 {
        assert(i == len);
        assert(all =~= got);
    }
    if ranges.len() == 0 {
        let e = trim_end_index(&t, 0, len);
        assert(t@.subrange(0, len as int) =~= t@);
        (string_from_range(&t, 0, e), None, None)
    } else if ranges.len() == 1 {
        let (a, b) = ranges[0];
        assert(got[0] == (a as int, b as int));
        assert(all.len() == 1);
        let e = trim_end_index(&t, 0, a);
        assert(t@.subrange(0, a as int) =~= t@.take(a as int));
        (string_from_range(&t, 0, e), Some(string_from_range(&t, a, b)), None)
    } else {
        let (a, b) = ranges[0];
        let (c, d) = ranges[1];
        assert(got[0] == (a as int, b as int));
        assert(got[1] == (c as int, d as int));
        assert(all.len() >= 2);
        assert(all[0] == got[0]);
        assert(all[1] == got[1]);
        let e = trim_end_index(&t, 0, a);
        assert(t@.subrange(0, a as int) =~= t@.take(a as int));
        (
            string_from_range(&t, 0, e),
            Some(string_from_range(&t, a, b)),
            Some(string_from_range(&t, c, d)),
        )
    }
}

} // verus!
