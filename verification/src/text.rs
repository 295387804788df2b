//! Character-level text primitives shared by both directions of the
//! transcoder: whitespace trimming, substring search, and splitting on a
//! separator character.

use vstd::prelude::*;

verus! {

/// The Unicode `White_Space` characters, the set that trimming removes.
pub open spec fn is_ws(c: char) -> bool {
    c == '\u{0009}' || c == '\u{000A}' || c == '\u{000B}' || c == '\u{000C}'
        || c == '\u{000D}' || c == ' ' || c == '\u{0085}' || c == '\u{00A0}'
        || c == '\u{1680}' || c == '\u{2000}' || c == '\u{2001}' || c == '\u{2002}'
        || c == '\u{2003}' || c == '\u{2004}' || c == '\u{2005}' || c == '\u{2006}'
        || c == '\u{2007}' || c == '\u{2008}' || c == '\u{2009}' || c == '\u{200A}'
        || c == '\u{2028}' || c == '\u{2029}' || c == '\u{202F}' || c == '\u{205F}'
        || c == '\u{3000}'
}

pub fn is_ws_char(c: char) -> (r: bool)
    ensures
        r == is_ws(c),
{
    c == '\u{0009}' || c == '\u{000A}' || c == '\u{000B}' || c == '\u{000C}'
        || c == '\u{000D}' || c == ' ' || c == '\u{0085}' || c == '\u{00A0}'
        || c == '\u{1680}' || c == '\u{2000}' || c == '\u{2001}' || c == '\u{2002}'
        || c == '\u{2003}' || c == '\u{2004}' || c == '\u{2005}' || c == '\u{2006}'
        || c == '\u{2007}' || c == '\u{2008}' || c == '\u{2009}' || c == '\u{200A}'
        || c == '\u{2028}' || c == '\u{2029}' || c == '\u{202F}' || c == '\u{205F}'
        || c == '\u{3000}'
}

/// The sequence with leading whitespace removed.
pub open spec fn trim_start_spec(s: Seq<char>) -> Seq<char>
    decreases s.len(),
{
    if s.len() > 0 && is_ws(s[0]) {
        trim_start_spec(s.drop_first())
    } else {
        s
    }
}

/// The sequence with trailing whitespace removed.
pub open spec fn trim_end_spec(s: Seq<char>) -> Seq<char>
    decreases s.len(),
{
    if s.len() > 0 && is_ws(s[s.len() - 1]) {
        trim_end_spec(s.drop_last())
    } else {
        s
    }
}

/// The sequence with both leading and trailing whitespace removed.
pub open spec fn trim_spec(s: Seq<char>) -> Seq<char> {
    trim_end_spec(trim_start_spec(s))
}

/// Trims leading and trailing whitespace, as `trim_spec` describes.
pub fn trim_str<'a>(s: &'a str) -> (r: &'a str)
    ensures
        r@ == trim_spec(s@),
{
    let n = s.unicode_len();
    let mut i: usize = 0;
    proof {
        assert(s@.skip(0) =~= s@);
    }
    while i < n && is_ws_char(s.get_char(i))
        invariant
            0 <= i <= n,
            n == s@.len(),
            trim_start_spec(s@) == trim_start_spec(s@.skip(i as int)),
        decreases n - i,
    {
        proof {
            assert(s@.skip(i as int).len() > 0);
            assert(s@.skip(i as int)[0] == s@[i as int]);
            assert(s@.skip(i as int).drop_first() =~= s@.skip(i as int + 1));
        }
        i = i + 1;
    }
    proof {
        if i < n {
            assert(s@.skip(i as int)[0] == s@[i as int]);
        }
        assert(trim_start_spec(s@.skip(i as int)) == s@.skip(i as int));
    }
    let mut e: usize = n;
    proof {
        assert(s@.skip(i as int) =~= s@.subrange(i as int, n as int));
    }
    while e > i && is_ws_char(s.get_char(e - 1))
        invariant
            i <= e <= n,
            n == s@.len(),
            trim_start_spec(s@) == s@.skip(i as int),
            trim_end_spec(s@.skip(i as int)) == trim_end_spec(s@.subrange(i as int, e as int)),
        decreases e - i,
    {
        proof {
            let seg = s@.subrange(i as int, e as int);
            assert(seg.len() > 0);
            assert(seg[seg.len() - 1] == s@[e as int - 1]);
            assert(seg.drop_last() =~= s@.subrange(i as int, e as int - 1));
        }
        e = e - 1;
    }
    proof {
        let seg = s@.subrange(i as int, e as int);
        if e > i {
            assert(seg[seg.len() - 1] == s@[e as int - 1]);
        }
        assert(trim_end_spec(seg) == seg);
        assert(s@.skip(i as int) =~= s@.subrange(i as int, n as int));
    }
    s.substring_char(i, e)
}

/// The position of the first occurrence of `c` in `s` at or after `from`.
pub open spec fn find_char_from(s: Seq<char>, c: char, from: int) -> Option<int>
    decreases s.len() - from,
{
    if from < 0 || from >= s.len() {
        None
    } else if s[from] == c {
        Some(from)
    } else {
        find_char_from(s, c, from + 1)
    }
}

/// `find_char_from` returns the least occurrence at or after `from`, and
/// `None` exactly when there is none.
pub proof fn lemma_find_char_from(s: Seq<char>, c: char, from: int)
    requires
        0 <= from,
    ensures
        match find_char_from(s, c, from) {
            Some(i) => from <= i < s.len() && s[i] == c && (forall|k: int|
                from <= k < i ==> s[k] != c),
            None => forall|k: int| from <= k < s.len() ==> s[k] != c,
        },
    decreases s.len() - from,
{
    if from >= s.len() {
    } else if s[from] == c {
    } else {
        lemma_find_char_from(s, c, from + 1);
    }
}

/// Whether `p` occurs as a substring of `s` starting at position `i`.
pub open spec fn occurs_at(s: Seq<char>, p: Seq<char>, i: int) -> bool {
    0 <= i && i + p.len() <= s.len() && s.subrange(i, i + p.len()) == p
}

/// The position of the first occurrence of the substring `p` in `s` at or
/// after `from`.
pub open spec fn find_from(s: Seq<char>, p: Seq<char>, from: int) -> Option<int>
    decreases s.len() - from + 1,
{
    if from < 0 || from + p.len() > s.len() {
        None
    } else if occurs_at(s, p, from) {
        Some(from)
    } else {
        find_from(s, p, from + 1)
    }
}

/// `find_from` returns the least occurrence at or after `from`, and `None`
/// exactly when there is none.
pub proof fn lemma_find_from(s: Seq<char>, p: Seq<char>, from: int)
    requires
        0 <= from,
    ensures
        match find_from(s, p, from) {
            Some(i) => from <= i && occurs_at(s, p, i) && (forall|k: int|
                from <= k < i ==> !occurs_at(s, p, k)),
            None => forall|k: int| k >= from ==> !occurs_at(s, p, k),
        },
    decreases s.len() - from + 1,
{
    if from + p.len() > s.len() {
    } else if occurs_at(s, p, from) {
    } else {
        lemma_find_from(s, p, from + 1);
    }
}

/// Finds the first occurrence of the substring `p` in `s` at or after `from`.
pub fn find_sub(s: &str, p: &str, from: usize) -> (r: Option<usize>)
    requires
        from <= s@.len(),
        p@.len() >= 1,
    ensures
        match r {
            Some(i) => find_from(s@, p@, from as int) == Some(i as int) && i < s@.len(),
            None => find_from(s@, p@, from as int) is None,
        },
{
    let n = s.unicode_len();
    let m = p.unicode_len();
    let mut i: usize = from;
    loop
        invariant
            from <= i <= n,
            n == s@.len(),
            m == p@.len(),
            m >= 1,
            find_from(s@, p@, from as int) == find_from(s@, p@, i as int),
        decreases n - i,
    {
        if m > n {
            proof {
                assert(find_from(s@, p@, i as int) is None);
            }
            return None;
        }
        if i > n - m {
            proof {
                assert(find_from(s@, p@, i as int) is None);
            }
            return None;
        }
        let mut j: usize = 0;
        let mut matched: bool = true;
        while j < m && matched
            invariant
                0 <= j <= m,
                i + m <= n,
                n == s@.len(),
                m == p@.len(),
                matched ==> forall|k: int| 0 <= k < j ==> s@[i + k] == p@[k],
                !matched ==> !occurs_at(s@, p@, i as int),
            decreases (if matched { 1int } else { 0int }), m - j,
        {
            let sc = s.get_char(i + j);
            let pc = p.get_char(j);
            if sc != pc {
                proof {
                    let sub = s@.subrange(i as int, i + m);
                    assert(sub[j as int] == s@[i + j]);
                    if occurs_at(s@, p@, i as int) {
                        assert(sub == p@);
                        assert(sub[j as int] == p@[j as int]);
                    }
                }
                matched = false;
            } else {
                j = j + 1;
            }
        }
        if matched {
            proof {
                assert(s@.subrange(i as int, i + m) =~= p@);
                assert(occurs_at(s@, p@, i as int));
            }
            return Some(i);
        }
        proof {
            assert(find_from(s@, p@, i as int) == find_from(s@, p@, i as int + 1));
        }
        i = i + 1;
    }
}

/// The segments of `s` from position `from` on, split on the separator `c`;
/// the separator belongs to no segment.
pub open spec fn split_char_from(s: Seq<char>, c: char, from: int) -> Seq<Seq<char>>
    decreases s.len() - from + 1,
    via split_char_from_decreases
{
    if from < 0 || from > s.len() {
        seq![]
    } else {
        match find_char_from(s, c, from) {
            None => seq![s.subrange(from, s.len() as int)],
            Some(i) => seq![s.subrange(from, i)] + split_char_from(s, c, i + 1),
        }
    }
}

#[via_fn]
proof fn split_char_from_decreases(s: Seq<char>, c: char, from: int) {
    if 0 <= from <= s.len() {
        lemma_find_char_from(s, c, from);
    }
}

/// The segments of `s` split on the separator `c`: what `s` holds before
/// the first separator, between any two, and after the last.
pub open spec fn split_char_spec(s: Seq<char>, c: char) -> Seq<Seq<char>> {
    split_char_from(s, c, 0)
}

/// No segment that a split produces contains the separator.
pub proof fn lemma_split_segments_free(s: Seq<char>, c: char, from: int)
    requires
        0 <= from <= s.len(),
    ensures
        forall|q: int, k: int|
            0 <= q < split_char_from(s, c, from).len() && 0 <= k < split_char_from(
                s,
                c,
                from,
            )[q].len() ==> split_char_from(s, c, from)[q][k] != c,
    decreases s.len() - from,
{
    lemma_find_char_from(s, c, from);
    match find_char_from(s, c, from) {
        None => {
            let sp = split_char_from(s, c, from);
            assert(sp[0] == s.subrange(from, s.len() as int));
            assert forall|k: int| 0 <= k < sp[0].len() implies sp[0][k] != c by {
                assert(sp[0][k] == s[from + k]);
            }
        },
        Some(i) => {
            lemma_split_segments_free(s, c, i + 1);
            let sp = split_char_from(s, c, from);
            let rest = split_char_from(s, c, i + 1);
            assert(sp == seq![s.subrange(from, i)] + rest);
            assert forall|q: int, k: int|
                0 <= q < sp.len() && 0 <= k < sp[q].len() implies sp[q][k] != c by {
                if q == 0 {
                    assert(sp[0] == s.subrange(from, i));
                    assert(sp[0][k] == s[from + k]);
                } else {
                    assert(sp[q] == rest[q - 1]);
                }
            }
        },
    }
}

/// Finds the first occurrence of the character `c` in `s` at or after `from`.
pub fn find_char(s: &str, c: char, from: usize) -> (r: Option<usize>)
    requires
        from <= s@.len(),
    ensures
        match r {
            Some(i) => find_char_from(s@, c, from as int) == Some(i as int) && i < s@.len(),
            None => find_char_from(s@, c, from as int) is None,
        },
{
    let n = s.unicode_len();
    let mut i: usize = from;
    loop
        invariant
            from <= i <= n,
            n == s@.len(),
            find_char_from(s@, c, from as int) == find_char_from(s@, c, i as int),
        decreases n - i,
    {
        if i >= n {
            return None;
        }
        let sc = s.get_char(i);
        if sc == c {
            return Some(i);
        }
        i = i + 1;
    }
}

} // verus!
