//! Collapse: the JSON-to-line-format direction.  The `snippets` member's
//! string blob is un-escaped, split into lines, and each line's three quoted
//! sub-fields are extracted by pattern matching; lines on which any pattern
//! fails are silently dropped, and the surviving records are rendered one
//! per line.

use vstd::prelude::*;
use crate::jsondoc::{doc_snippets_string, json_snips, json_valid};
use crate::record::{RecordView, SnippetsError};
use crate::text::{
    find_char, find_char_from, find_from, find_sub, lemma_find_char_from, lemma_find_from,
    split_char_from, split_char_spec, trim_spec, trim_str,
};

verus! {

/// Relies on `String::push`: appends the single character `c`.
#[verifier::external_body]
fn push_char(s: &mut String, c: char)
    ensures
        final(s)@ == old(s)@.push(c),
{
    s.push(c);
}

/// One layer of escaping undone: each doubled backslash becomes a single
/// one, scanning left to right without overlap.
pub open spec fn unescape_spec(s: Seq<char>) -> Seq<char>
    decreases s.len(),
{
    if s.len() >= 2 && s[0] == '\\' && s[1] == '\\' {
        seq!['\\'] + unescape_spec(s.skip(2))
    } else if s.len() >= 1 {
        seq![s[0]] + unescape_spec(s.skip(1))
    } else {
        Seq::<char>::empty()
    }
}

/// Replaces each doubled backslash by a single one, as `unescape_spec`
/// describes; this reverses the one layer of escaping the source
/// application applies before embedding the blob in a JSON string.
pub fn unescape(s: &str) -> (r: String)
    ensures
        r@ == unescape_spec(s@),
{
    let n = s.unicode_len();
    let mut out = String::new();
    let mut i: usize = 0;
    proof {
        assert(s@.skip(0) =~= s@);
        assert(out@ + unescape_spec(s@) =~= unescape_spec(s@));
    }
    while i < n
        invariant
            0 <= i <= n,
            n == s@.len(),
            unescape_spec(s@) == out@ + unescape_spec(s@.skip(i as int)),
        decreases n - i,
    {
        let ghost prev = out@;
        let ghost t = s@.skip(i as int);
        let c = s.get_char(i);
        if c == '\\' && i + 1 < n && s.get_char(i + 1) == '\\' {
            push_char(&mut out, '\\');
            proof {
                assert(t.len() >= 2);
                assert(t[0] == s@[i as int]);
                assert(t[1] == s@[i as int + 1]);
                assert(t.skip(2) =~= s@.skip(i as int + 2));
                assert(unescape_spec(t) == seq!['\\'] + unescape_spec(t.skip(2)));
                assert(out@ =~= prev + seq!['\\']);
                assert(prev + (seq!['\\'] + unescape_spec(t.skip(2))) =~= (prev + seq!['\\'])
                    + unescape_spec(t.skip(2)));
            }
            i = i + 2;
        } else {
            push_char(&mut out, c);
            proof {
                assert(t.len() >= 1);
                assert(t[0] == s@[i as int]);
                if t.len() >= 2 {
                    assert(t[1] == s@[i as int + 1]);
                }
                assert(!(t.len() >= 2 && t[0] == '\\' && t[1] == '\\'));
                assert(t.skip(1) =~= s@.skip(i as int + 1));
                assert(unescape_spec(t) == seq![t[0]] + unescape_spec(t.skip(1)));
                assert(out@ =~= prev + seq![c]);
                assert(prev + (seq![c] + unescape_spec(t.skip(1))) =~= (prev + seq![c])
                    + unescape_spec(t.skip(1)));
            }
            i = i + 1;
        }
    }
    proof {
        assert(s@.skip(n as int) =~= Seq::<char>::empty());
        assert(out@ + unescape_spec(Seq::<char>::empty()) =~= out@);
    }
    out
}

/// The literal prefix `trigger: "` sought by field extraction.
pub open spec fn trigger_pat() -> Seq<char> {
    seq!['t', 'r', 'i', 'g', 'g', 'e', 'r', ':', ' ', '"']
}

/// The literal prefix `replacement: "` sought by field extraction.
pub open spec fn replacement_pat() -> Seq<char> {
    seq!['r', 'e', 'p', 'l', 'a', 'c', 'e', 'm', 'e', 'n', 't', ':', ' ', '"']
}

/// The literal prefix `options: "` sought by field extraction.
pub open spec fn options_pat() -> Seq<char> {
    seq!['o', 'p', 't', 'i', 'o', 'n', 's', ':', ' ', '"']
}

/// The value a non-greedy quoted-field pattern captures on `s`: at the
/// first position where the literal prefix `p` occurs, the shortest
/// non-empty run of characters up to the next double quote.  `None` when
/// the prefix never occurs or no closing quote follows it.
pub open spec fn extract_spec(s: Seq<char>, p: Seq<char>) -> Option<Seq<char>> {
    match find_from(s, p, 0) {
        None => None,
        Some(i) => match find_char_from(s, '"', i + p.len() + 1) {
            None => None,
            Some(j) => Some(s.subrange(i + p.len(), j)),
        },
    }
}

/// Extracts the quoted field that the prefix `p` introduces, as
/// `extract_spec` describes.
pub fn extract_field<'a>(s: &'a str, p: &str) -> (r: Option<&'a str>)
    requires
        p@.len() >= 1,
    ensures
        (match r {
            Some(v) => extract_spec(s@, p@) == Some(v@),
            None => extract_spec(s@, p@) is None,
        }),
{
    let n = s.unicode_len();
    match find_sub(s, p, 0) {
        None => None,
        Some(i) => {
            let m = p.unicode_len();
            proof {
                lemma_find_from(s@, p@, 0);
            }
            let start = i + m;
            if start >= n {
                proof {
                    assert(find_char_from(s@, '"', start as int + 1) is None);
                }
                None
            } else {
                match find_char(s, '"', start + 1) {
                    None => None,
                    Some(j) => {
                        proof {
                            lemma_find_char_from(s@, '"', start as int + 1);
                        }
                        Some(s.substring_char(start, j))
                    },
                }
            }
        },
    }
}

/// The record a blob line yields: the line is trimmed and the three
/// patterns are applied independently; if any of them fails to capture, the
/// line yields no record.
pub open spec fn line_to_record(l: Seq<char>) -> Option<RecordView> {
    let t = trim_spec(l);
    match (extract_spec(t, trigger_pat()), extract_spec(t, replacement_pat()), extract_spec(
        t,
        options_pat(),
    )) {
        (Some(tv), Some(rv), Some(ov)) => Some(
            RecordView { trigger: tv, replacement: rv, options: ov },
        ),
        _ => None,
    }
}

/// The literal ` := ` separating trigger and replacement in the line format.
pub open spec fn assign_delim() -> Seq<char> {
    seq![' ', ':', '=', ' ']
}

/// The literal ` ! ` separating replacement and options in the line format.
pub open spec fn bang_delim() -> Seq<char> {
    seq![' ', '!', ' ']
}

/// One rendered line of the line format, without its terminating newline:
/// `<trigger> := <replacement> ! <options>`.
pub open spec fn render_record(rec: RecordView) -> Seq<char> {
    rec.trigger + assign_delim() + rec.replacement + bang_delim() + rec.options
}

/// The line-format output for a sequence of blob lines: each line that
/// yields a record contributes its rendering plus a newline, in order;
/// the others contribute nothing.
pub open spec fn collapse_lines(ls: Seq<Seq<char>>) -> Seq<char>
    decreases ls.len(),
{
    if ls.len() == 0 {
        Seq::<char>::empty()
    } else {
        (match line_to_record(ls[0]) {
            Some(rec) => render_record(rec).push('\n'),
            None => Seq::<char>::empty(),
        }) + collapse_lines(ls.drop_first())
    }
}

/// The records a sequence of blob lines yields, in order of appearance.
pub open spec fn collapse_records(ls: Seq<Seq<char>>) -> Seq<RecordView>
    decreases ls.len(),
{
    if ls.len() == 0 {
        Seq::<RecordView>::empty()
    } else {
        match line_to_record(ls[0]) {
            Some(rec) => seq![rec] + collapse_records(ls.drop_first()),
            None => collapse_records(ls.drop_first()),
        }
    }
}

/// The full Collapse transformation on a blob: un-escape, split into lines,
/// extract, render.
pub open spec fn collapse_spec(blob: Seq<char>) -> Seq<char> {
    collapse_lines(split_char_spec(unescape_spec(blob), '\n'))
}

/// Processes one blob line: the rendered record line including its
/// newline, or `None` when the line yields no record.
fn collapse_line(line: &str) -> (r: Option<String>)
    ensures
        (match (r, line_to_record(line@)) {
            (Some(out), Some(rec)) => out@ == render_record(rec).push('\n'),
            (None, None) => true,
            _ => false,
        }),
{
    proof {
        reveal_strlit("trigger: \"");
        reveal_strlit("replacement: \"");
        reveal_strlit("options: \"");
        assert("trigger: \""@ =~= trigger_pat());
        assert("replacement: \""@ =~= replacement_pat());
        assert("options: \""@ =~= options_pat());
    }
    let t = trim_str(line);
    let tv = extract_field(t, "trigger: \"");
    let rv = extract_field(t, "replacement: \"");
    let ov = extract_field(t, "options: \"");
    match (tv, rv, ov) {
        (Some(tpart), Some(rpart), Some(opart)) => {
            let mut out = String::new();
            out.append(tpart);
            out.append(" := ");
            out.append(rpart);
            out.append(" ! ");
            out.append(opart);
            out.append("\n");
            proof {
                reveal_strlit(" := ");
                reveal_strlit(" ! ");
                reveal_strlit("\n");
                assert(" := "@ =~= assign_delim());
                assert(" ! "@ =~= bang_delim());
                let rec = line_to_record(line@)->Some_0;
                assert(out@ =~= render_record(rec).push('\n'));
            }
            Some(out)
        },
        _ => None,
    }
}

/// The executable Collapse transformation on a blob string.
pub fn collapse_blob(blob: &str) -> (out: String)
    ensures
        out@ == collapse_spec(blob@),
{
    let u = unescape(blob);
    let s: &str = u.as_str();
    let n = s.unicode_len();
    let mut out = String::new();
    let mut pos: usize = 0;
    proof {
        assert(out@ + collapse_lines(split_char_from(s@, '\n', 0)) =~= collapse_lines(
            split_char_spec(s@, '\n'),
        ));
    }
    loop
        invariant_except_break
            0 <= pos <= n,
            n == s@.len(),
            s@ == unescape_spec(blob@),
            collapse_spec(blob@) == out@ + collapse_lines(split_char_from(s@, '\n', pos as int)),
        ensures
            collapse_spec(blob@) == out@,
        decreases n - pos,
    {
        let ghost prev = out@;
        match find_char(s, '\n', pos) {
            Some(idx) => {
                proof {
                    lemma_find_char_from(s@, '\n', pos as int);
                }
                let line = s.substring_char(pos, idx);
                let piece = collapse_line(line);
                proof {
                    let ls = split_char_from(s@, '\n', pos as int);
                    let rest = split_char_from(s@, '\n', idx as int + 1);
                    assert(ls == seq![line@] + rest);
                    assert(ls.len() > 0 && ls[0] == line@ && ls.drop_first() =~= rest);
                    let head = match line_to_record(line@) {
                        Some(rec) => render_record(rec).push('\n'),
                        None => Seq::<char>::empty(),
                    };
                    assert(collapse_lines(ls) == head + collapse_lines(rest));
                    assert(prev + (head + collapse_lines(rest)) =~= (prev + head)
                        + collapse_lines(rest));
                }
                match piece {
                    Some(pstr) => {
                        out.append(pstr.as_str());
                    },
                    None => {
                        proof {
                            assert(prev + Seq::<char>::empty() =~= prev);
                        }
                    },
                }
                pos = idx + 1;
            },
            None => {
                let line = s.substring_char(pos, n);
                let piece = collapse_line(line);
                proof {
                    let ls = split_char_from(s@, '\n', pos as int);
                    assert(ls == seq![line@]);
                    assert(ls.len() == 1 && ls[0] == line@ && ls.drop_first()
                        =~= Seq::<Seq<char>>::empty());
                    let head = match line_to_record(line@) {
                        Some(rec) => render_record(rec).push('\n'),
                        None => Seq::<char>::empty(),
                    };
                    assert(collapse_lines(ls) == head + collapse_lines(Seq::<Seq<char>>::empty()));
                    assert(head + Seq::<char>::empty() =~= head);
                }
                match piece {
                    Some(pstr) => {
                        out.append(pstr.as_str());
                    },
                    None => {
                        proof {
                            assert(prev + Seq::<char>::empty() =~= prev);
                        }
                    },
                }
                break;
            },
        }
    }
    out
}

/// Collapse on a whole JSON document's text: locates the `snippets` string
/// member and transforms its blob into line-format text.  Fails with
/// `JsonError` when the text is not valid JSON, and with `BadJsonFormat`
/// when the `snippets` member is missing or is not a JSON string.
pub fn save_snippets(doc_text: &str) -> (r: Result<String, SnippetsError>)
    ensures
        (match r {
            Ok(out) => json_valid(doc_text@) && (match json_snips(doc_text@) {
                Some(b) => out@ == collapse_spec(b),
                None => false,
            }),
            Err(SnippetsError::JsonError(_)) => !json_valid(doc_text@),
            Err(SnippetsError::BadJsonFormat) => json_valid(doc_text@) && json_snips(doc_text@)
                is None,
            Err(_) => false,
        }),
{
    match doc_snippets_string(doc_text) {
        Err(e) => Err(SnippetsError::JsonError(e)),
        Ok(None) => Err(SnippetsError::BadJsonFormat),
        Ok(Some(blob)) => Ok(collapse_blob(blob.as_str())),
    }
}

} // verus!
