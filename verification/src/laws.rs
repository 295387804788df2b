//! The transcoder's laws: round-tripping of rendered records, and the
//! silent-filtering policies of both directions.

use vstd::prelude::*;
use crate::collapse::{
    assign_delim, bang_delim, collapse_lines, collapse_records, collapse_spec, extract_spec,
    line_to_record, render_record, unescape_spec,
};
use crate::expand::{assign_sep, expand_records, parse_line_spec, parse_lines_spec};
use crate::record::RecordView;
use crate::text::{
    find_char_from, find_from, is_ws, lemma_find_char_from, lemma_find_from,
    lemma_split_segments_free, occurs_at, split_char_from, split_char_spec, trim_end_spec,
    trim_spec, trim_start_spec,
};

verus! {

/// Whether `x` is free of the character `c`.
pub open spec fn free_of(x: Seq<char>, c: char) -> bool {
    forall|k: int| 0 <= k < x.len() ==> x[k] != c
}

/// A record the line format can carry faithfully: its trigger contains no
/// `:=` and its replacement contains no `!`, so the rendered line's
/// separators are unambiguous.
pub open spec fn round_trippable(rec: RecordView) -> bool {
    (forall|k: int| !occurs_at(rec.trigger, assign_sep(), k)) && free_of(rec.replacement, '!')
}

/// The record with each field trimmed of surrounding whitespace.
pub open spec fn trim_record(rec: RecordView) -> RecordView {
    RecordView {
        trigger: trim_spec(rec.trigger),
        replacement: trim_spec(rec.replacement),
        options: trim_spec(rec.options),
    }
}

proof fn lemma_trim_ws_prefix(x: Seq<char>, c: char)
    requires
        is_ws(c),
    ensures
        trim_spec(seq![c] + x) == trim_spec(x),
{
    let s = seq![c] + x;
    assert(s.len() > 0 && s[0] == c);
    assert(s.drop_first() =~= x);
    assert(trim_start_spec(s) == trim_start_spec(x));
}

proof fn lemma_trim_ws_suffix(x: Seq<char>, c: char)
    requires
        is_ws(c),
    ensures
        trim_spec(x + seq![c]) == trim_spec(x),
    decreases x.len(),
{
    let s = x + seq![c];
    if x.len() > 0 && is_ws(x[0]) {
        assert(s[0] == x[0]);
        assert(s.drop_first() =~= x.drop_first() + seq![c]);
        lemma_trim_ws_suffix(x.drop_first(), c);
        assert(trim_start_spec(s) == trim_start_spec(x.drop_first() + seq![c]));
        assert(trim_start_spec(x) == trim_start_spec(x.drop_first()));
    } else if x.len() == 0 {
        assert(s =~= seq![c]);
        assert(s.len() == 1 && s[0] == c);
        assert(s.drop_first() =~= Seq::<char>::empty());
        assert(trim_start_spec(s) == trim_start_spec(Seq::<char>::empty()));
        assert(trim_spec(x) == x);
    } else {
        assert(s[0] == x[0]);
        assert(trim_start_spec(s) == s);
        assert(trim_start_spec(x) == x);
        assert(s.len() > 0 && is_ws(s[s.len() - 1]));
        assert(s.drop_last() =~= x);
        assert(trim_end_spec(s) == trim_end_spec(x));
    }
}

proof fn lemma_trim_start_free(x: Seq<char>, c: char)
    requires
        free_of(x, c),
    ensures
        free_of(trim_start_spec(x), c),
    decreases x.len(),
{
    if x.len() > 0 && is_ws(x[0]) {
        assert(forall|k: int| 0 <= k < x.drop_first().len() ==> x.drop_first()[k] == x[k + 1]);
        lemma_trim_start_free(x.drop_first(), c);
    }
}

proof fn lemma_trim_end_free(x: Seq<char>, c: char)
    requires
        free_of(x, c),
    ensures
        free_of(trim_end_spec(x), c),
    decreases x.len(),
{
    if x.len() > 0 && is_ws(x[x.len() - 1]) {
        assert(forall|k: int| 0 <= k < x.drop_last().len() ==> x.drop_last()[k] == x[k]);
        lemma_trim_end_free(x.drop_last(), c);
    }
}

proof fn lemma_trim_free(x: Seq<char>, c: char)
    requires
        free_of(x, c),
    ensures
        free_of(trim_spec(x), c),
{
    lemma_trim_start_free(x, c);
    lemma_trim_end_free(trim_start_spec(x), c);
}

proof fn lemma_extract_free(s: Seq<char>, p: Seq<char>, c: char)
    requires
        free_of(s, c),
    ensures
        (match extract_spec(s, p) {
            Some(v) => free_of(v, c),
            None => true,
        }),
{
    match find_from(s, p, 0) {
        None => {},
        Some(i) => {
            lemma_find_from(s, p, 0);
            match find_char_from(s, '"', i + p.len() + 1) {
                None => {},
                Some(j) => {
                    lemma_find_char_from(s, '"', i + p.len() + 1);
                    let v = s.subrange(i + p.len(), j);
                    assert forall|k: int| 0 <= k < v.len() implies v[k] != c by {
                        assert(v[k] == s[i + p.len() + k]);
                    }
                },
            }
        },
    }
}

/// Fields captured from a line free of `c` are themselves free of `c`.
proof fn lemma_record_free(l: Seq<char>, c: char)
    requires
        free_of(l, c),
    ensures
        (match line_to_record(l) {
            Some(rec) => free_of(rec.trigger, c) && free_of(rec.replacement, c) && free_of(
                rec.options,
                c,
            ),
            None => true,
        }),
{
    let t = trim_spec(l);
    lemma_trim_free(l, c);
    lemma_extract_free(t, crate::collapse::trigger_pat(), c);
    lemma_extract_free(t, crate::collapse::replacement_pat(), c);
    lemma_extract_free(t, crate::collapse::options_pat(), c);
}

proof fn lemma_render_nl_free(rec: RecordView)
    requires
        free_of(rec.trigger, '\n'),
        free_of(rec.replacement, '\n'),
        free_of(rec.options, '\n'),
    ensures
        free_of(render_record(rec), '\n'),
{
    let t = rec.trigger;
    let rp = rec.replacement;
    let op = rec.options;
    let d1 = assign_delim();
    let d2 = bang_delim();
    let l = render_record(rec);
    assert(d1[0] == ' ' && d1[1] == ':' && d1[2] == '=' && d1[3] == ' ');
    assert(d2[0] == ' ' && d2[1] == '!' && d2[2] == ' ');
    assert forall|k: int| 0 <= k < l.len() implies l[k] != '\n' by {
        if k < t.len() {
            assert(l[k] == t[k]);
        } else if k < t.len() + 4 {
            assert(l[k] == d1[k - t.len()]);
        } else if k < t.len() + 4 + rp.len() {
            assert(l[k] == rp[k - t.len() - 4]);
        } else if k < t.len() + 4 + rp.len() + 3 {
            assert(l[k] == d2[k - t.len() - 4 - rp.len()]);
        } else {
            assert(l[k] == op[k - t.len() - 7 - rp.len()]);
        }
    }
}

/// Law: rendering a record and parsing the rendered line round-trips.  For
/// any record whose trigger contains no `:=` and whose replacement contains
/// no `!`, the line `<trigger> := <replacement> ! <options>` parses back to
/// the same record with each field trimmed.  (A record outside these
/// conditions, such as one with replacement `a!b`, renders ambiguously:
/// the line format has no escaping for its separators.)
pub proof fn lemma_render_parse_round_trip(rec: RecordView)
    requires
        round_trippable(rec),
    ensures
        parse_line_spec(render_record(rec)) == Some(trim_record(rec)),
{
    let t = rec.trigger;
    let rp = rec.replacement;
    let op = rec.options;
    let d1 = assign_delim();
    let d2 = bang_delim();
    let l = render_record(rec);
    assert(d1[0] == ' ' && d1[1] == ':' && d1[2] == '=' && d1[3] == ' ');
    assert(d2[0] == ' ' && d2[1] == '!' && d2[2] == ' ');
    let sep = assign_sep();
    assert(sep[0] == ':' && sep[1] == '=');
    let ipos = t.len() as int + 1;
    // The rendered `:=` occurs right after the trigger and its space.
    assert(l[ipos] == ':' && l[ipos + 1] == '=');
    assert(l.subrange(ipos, ipos + 2) =~= sep);
    assert(occurs_at(l, sep, ipos));
    // No occurrence starts earlier.
    assert forall|k: int| 0 <= k < ipos implies !occurs_at(l, sep, k) by {
        if occurs_at(l, sep, k) {
            assert(l.subrange(k, k + 2)[0] == l[k]);
            assert(l.subrange(k, k + 2)[1] == l[k + 1]);
            if k + 1 < t.len() {
                assert(l[k] == t[k] && l[k + 1] == t[k + 1]);
                assert(t.subrange(k, k + 2) =~= sep);
                assert(occurs_at(t, sep, k));
            } else if k + 1 == t.len() {
                assert(l[k + 1] == t[k + 1]);
            } else {
                assert(l[k] == d1[0]);
            }
        }
    }
    lemma_find_from(l, sep, 0);
    match find_from(l, sep, 0) {
        None => {
            assert(false);
        },
        Some(i) => {
            assert(i == ipos);
            let rest = l.skip(i + 2);
            assert(rest =~= seq![' '] + rp + d2 + op);
            let jpos = rp.len() as int + 2;
            assert(rest[jpos] == '!');
            assert forall|k: int| 0 <= k < jpos implies rest[k] != '!' by {
                if k == 0 {
                } else if k < rp.len() + 1 {
                    assert(rest[k] == rp[k - 1]);
                } else {
                    assert(rest[k] == ' ');
                }
            }
            lemma_find_char_from(rest, '!', 0);
            match find_char_from(rest, '!', 0) {
                None => {
                    assert(false);
                },
                Some(j) => {
                    assert(j == jpos);
                    // trigger part: the trigger plus one trailing space
                    assert(l.subrange(0, i) =~= t + seq![' ']);
                    lemma_trim_ws_suffix(t, ' ');
                    // replacement part: one space each side of the replacement
                    assert(rest.subrange(0, j) =~= seq![' '] + (rp + seq![' ']));
                    lemma_trim_ws_prefix(rp + seq![' '], ' ');
                    lemma_trim_ws_suffix(rp, ' ');
                    // options part: one leading space before the options
                    assert(rest.skip(j + 1) =~= seq![' '] + op);
                    lemma_trim_ws_prefix(op, ' ');
                },
            }
        },
    }
}

proof fn lemma_find_char_shift(s: Seq<char>, c: char, from: int, k: int)
    requires
        0 <= from <= s.len(),
        0 <= k,
    ensures
        find_char_from(s, c, from + k) == (match find_char_from(s.skip(from), c, k) {
            Some(j) => Some(from + j),
            None => None::<int>,
        }),
{
    let u = s.skip(from);
    assert(forall|x: int| 0 <= x < u.len() ==> u[x] == s[from + x]);
    lemma_find_char_from(s, c, from + k);
    lemma_find_char_from(u, c, k);
    match (find_char_from(s, c, from + k), find_char_from(u, c, k)) {
        (Some(i), Some(j)) => {
            assert(s[from + j] == c);
            assert(u[i - from] == c);
        },
        (Some(i), None) => {
            assert(u[i - from] == c);
            assert(false);
        },
        (None, Some(j)) => {
            assert(s[from + j] == c);
            assert(false);
        },
        (None, None) => {},
    }
}

proof fn lemma_split_from_skip(s: Seq<char>, c: char, from: int, k: int)
    requires
        0 <= from <= s.len(),
        0 <= k,
    ensures
        split_char_from(s, c, from + k) == split_char_from(s.skip(from), c, k),
    decreases s.len() - from - k + 1,
{
    let u = s.skip(from);
    lemma_find_char_shift(s, c, from, k);
    if from + k > s.len() {
    } else {
        match find_char_from(u, c, k) {
            None => {
                assert(s.subrange(from + k, s.len() as int) =~= u.subrange(k, u.len() as int));
            },
            Some(j) => {
                lemma_find_char_from(u, c, k);
                assert(s.subrange(from + k, from + j) =~= u.subrange(k, j));
                lemma_split_from_skip(s, c, from, j + 1);
            },
        }
    }
}

proof fn lemma_split_prepend(l: Seq<char>, rest: Seq<char>)
    requires
        free_of(l, '\n'),
    ensures
        split_char_spec(l + seq!['\n'] + rest, '\n') == seq![l] + split_char_spec(rest, '\n'),
{
    let s = l + seq!['\n'] + rest;
    assert(s[l.len() as int] == '\n');
    assert forall|k: int| 0 <= k < l.len() implies s[k] != '\n' by {
        assert(s[k] == l[k]);
    }
    lemma_find_char_from(s, '\n', 0);
    match find_char_from(s, '\n', 0) {
        None => {
            assert(false);
        },
        Some(i) => {
            assert(i == l.len());
            assert(s.subrange(0, i) =~= l);
            lemma_split_from_skip(s, '\n', i + 1, 0);
            assert(s.skip(i + 1) =~= rest);
        },
    }
}

proof fn lemma_collapse_expand_lines(ls: Seq<Seq<char>>)
    requires
        forall|q: int, k: int| 0 <= q < ls.len() && 0 <= k < ls[q].len() ==> ls[q][k] != '\n',
        forall|q: int|
            0 <= q < collapse_records(ls).len() ==> round_trippable(
                #[trigger] collapse_records(ls)[q],
            ),
    ensures
        expand_records(split_char_spec(collapse_lines(ls), '\n')) == collapse_records(
            ls,
        ).map_values(|rec: RecordView| trim_record(rec)),
    decreases ls.len(),
{
    if ls.len() == 0 {
        let e = Seq::<char>::empty();
        assert(collapse_lines(ls) == e);
        assert(find_char_from(e, '\n', 0) is None);
        assert(split_char_from(e, '\n', 0) == seq![e.subrange(0, 0)]);
        assert(e.subrange(0, 0) =~= e);
        assert(find_from(e, assign_sep(), 0) is None);
        let sp = seq![e];
        assert(expand_records(sp) == expand_records(sp.drop_first()));
        assert(sp.drop_first() =~= Seq::<Seq<char>>::empty());
        assert(collapse_records(ls).map_values(|rec: RecordView| trim_record(rec))
            =~= Seq::<RecordView>::empty());
    } else {
        let head = ls[0];
        let rest = ls.drop_first();
        assert forall|q: int, k: int|
            0 <= q < rest.len() && 0 <= k < rest[q].len() implies rest[q][k] != '\n' by {
            assert(rest[q] == ls[q + 1]);
        }
        match line_to_record(head) {
            None => {
                assert(collapse_records(ls) == collapse_records(rest));
                assert(collapse_lines(ls) == Seq::<char>::empty() + collapse_lines(rest));
                assert(Seq::<char>::empty() + collapse_lines(rest) =~= collapse_lines(rest));
                lemma_collapse_expand_lines(rest);
            },
            Some(rv0) => {
                assert(collapse_records(ls) == seq![rv0] + collapse_records(rest));
                assert(collapse_records(ls)[0] == rv0);
                assert forall|q: int|
                    0 <= q < collapse_records(rest).len() implies round_trippable(
                    #[trigger] collapse_records(rest)[q],
                ) by {
                    assert(collapse_records(rest)[q] == collapse_records(ls)[q + 1]);
                }
                lemma_collapse_expand_lines(rest);
                assert(free_of(head, '\n'));
                lemma_record_free(head, '\n');
                lemma_render_nl_free(rv0);
                let rl = render_record(rv0);
                assert(collapse_lines(ls) == rl.push('\n') + collapse_lines(rest));
                assert(rl.push('\n') + collapse_lines(rest) =~= rl + seq!['\n'] + collapse_lines(
                    rest,
                ));
                lemma_split_prepend(rl, collapse_lines(rest));
                let sp = seq![rl] + split_char_spec(collapse_lines(rest), '\n');
                assert(split_char_spec(collapse_lines(ls), '\n') == sp);
                assert(sp[0] == rl && sp.drop_first() =~= split_char_spec(
                    collapse_lines(rest),
                    '\n',
                ));
                lemma_render_parse_round_trip(rv0);
                assert(expand_records(sp) == seq![trim_record(rv0)] + expand_records(
                    split_char_spec(collapse_lines(rest), '\n'),
                ));
                assert((seq![rv0] + collapse_records(rest)).map_values(
                    |rec: RecordView| trim_record(rec),
                ) =~= seq![trim_record(rv0)] + collapse_records(rest).map_values(
                    |rec: RecordView| trim_record(rec),
                ));
            },
        }
    }
}

/// The records that Collapse extracts from a blob, in order of appearance.
pub open spec fn blob_records(blob: Seq<char>) -> Seq<RecordView> {
    collapse_records(split_char_spec(unescape_spec(blob), '\n'))
}

/// Law: Collapse followed by Expand round-trips the records.  For any blob
/// each of whose surviving records carries no `:=` in its trigger and no
/// `!` in its replacement, parsing the collapsed line-format text yields
/// exactly those records, in order, with each field trimmed.  (The
/// conditions exclude records the unescaped line format cannot carry, such
/// as a replacement `a!b`.)
pub proof fn lemma_collapse_expand_round_trip(blob: Seq<char>)
    requires
        forall|q: int|
            0 <= q < blob_records(blob).len() ==> round_trippable(#[trigger] blob_records(blob)[q]),
    ensures
        parse_lines_spec(collapse_spec(blob)) == blob_records(blob).map_values(
            |rec: RecordView| trim_record(rec),
        ),
{
    let u = unescape_spec(blob);
    let ls = split_char_spec(u, '\n');
    lemma_split_segments_free(u, '\n', 0);
    assert forall|q: int|
        0 <= q < collapse_records(ls).len() implies round_trippable(
        #[trigger] collapse_records(ls)[q],
    ) by {
        assert(collapse_records(ls)[q] == blob_records(blob)[q]);
    }
    lemma_collapse_expand_lines(ls);
}

proof fn lemma_skip_line(ls: Seq<Seq<char>>, q: int)
    requires
        0 <= q < ls.len(),
        parse_line_spec(ls[q]) is None,
    ensures
        expand_records(ls) == expand_records(ls.remove(q)),
    decreases ls.len(),
{
    if q == 0 {
        assert(ls.remove(0) =~= ls.drop_first());
    } else {
        let rest = ls.drop_first();
        assert(rest[q - 1] == ls[q]);
        lemma_skip_line(rest, q - 1);
        assert(ls.remove(q).drop_first() =~= rest.remove(q - 1));
        assert(ls.remove(q)[0] == ls[0]);
        assert(ls.remove(q).len() > 0);
    }
}

/// Law: a line-format line missing the `:=` separator, or containing no
/// `!` at all, contributes no record to what Expand produces and does not
/// abort the parse: the remaining lines yield the same records.
pub proof fn lemma_separatorless_line_skipped(ls: Seq<Seq<char>>, q: int)
    requires
        0 <= q < ls.len(),
        (forall|k: int| !occurs_at(ls[q], assign_sep(), k)) || free_of(ls[q], '!'),
    ensures
        parse_line_spec(ls[q]) is None,
        expand_records(ls) == expand_records(ls.remove(q)),
{
    let l = ls[q];
    lemma_find_from(l, assign_sep(), 0);
    if forall|k: int| !occurs_at(l, assign_sep(), k) {
        match find_from(l, assign_sep(), 0) {
            Some(i) => {
                assert(occurs_at(l, assign_sep(), i));
                assert(false);
            },
            None => {},
        }
    } else {
        match find_from(l, assign_sep(), 0) {
            None => {},
            Some(i) => {
                let rest = l.skip(i + 2);
                lemma_find_char_from(rest, '!', 0);
                match find_char_from(rest, '!', 0) {
                    None => {},
                    Some(j) => {
                        assert(rest[j] == l[i + 2 + j]);
                        assert(false);
                    },
                }
            },
        }
    }
    lemma_skip_line(ls, q);
}

/// Law: a blob none of whose lines yields a record collapses to empty
/// line-format output, not to an error: malformed or unrelated lines are
/// silently dropped.
pub proof fn lemma_all_lines_malformed(ls: Seq<Seq<char>>)
    requires
        forall|q: int| 0 <= q < ls.len() ==> line_to_record(#[trigger] ls[q]) is None,
    ensures
        collapse_lines(ls) == Seq::<char>::empty(),
    decreases ls.len(),
{
    if ls.len() > 0 {
        assert(forall|q: int|
            0 <= q < ls.drop_first().len() ==> ls.drop_first()[q] == ls[q + 1]);
        lemma_all_lines_malformed(ls.drop_first());
        assert(collapse_lines(ls) == Seq::<char>::empty() + collapse_lines(ls.drop_first()));
        assert(Seq::<char>::empty() + Seq::<char>::empty() =~= Seq::<char>::empty());
    }
}

/// Law: Collapse of a blob none of whose lines yields a record is the
/// empty output.
pub proof fn lemma_malformed_blob_empty(blob: Seq<char>)
    requires
        forall|q: int|
            0 <= q < split_char_spec(unescape_spec(blob), '\n').len() ==> line_to_record(
                #[trigger] split_char_spec(unescape_spec(blob), '\n')[q],
            ) is None,
    ensures
        collapse_spec(blob) == Seq::<char>::empty(),
{
    lemma_all_lines_malformed(split_char_spec(unescape_spec(blob), '\n'));
}

} // verus!
