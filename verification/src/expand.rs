//! Expand: the line-format-to-JSON direction.  Each line of the line file
//! is split once on `:=` and once on `!`; lines missing either separator
//! are silently skipped, the three parts are trimmed, and the surviving
//! records are spliced back into the JSON document as an array.

use vstd::prelude::*;
use crate::jsondoc::{json_object_text, json_spliced, splice_snippets};
use crate::record::{RecordView, SnippetRecord, SnippetsError};
use crate::text::{
    find_char, find_char_from, find_from, find_sub, lemma_find_char_from, lemma_find_from,
    split_char_from, split_char_spec, trim_spec, trim_str,
};

verus! {

/// The literal `:=` on which a line is split into trigger and rest.
pub open spec fn assign_sep() -> Seq<char> {
    seq![':', '=']
}

/// The record a line-format line yields: the part before the first `:=`,
/// then the rest before and after its first `!`, each part trimmed.  A
/// line missing either separator yields no record.
pub open spec fn parse_line_spec(l: Seq<char>) -> Option<RecordView> {
    match find_from(l, assign_sep(), 0) {
        None => None,
        Some(i) => {
            let rest = l.skip(i + 2);
            match find_char_from(rest, '!', 0) {
                None => None,
                Some(j) => Some(
                    RecordView {
                        trigger: trim_spec(l.subrange(0, i)),
                        replacement: trim_spec(rest.subrange(0, j)),
                        options: trim_spec(rest.skip(j + 1)),
                    },
                ),
            }
        },
    }
}

/// The records a sequence of line-format lines yields, in order; lines
/// that yield no record contribute nothing.
pub open spec fn expand_records(ls: Seq<Seq<char>>) -> Seq<RecordView>
    decreases ls.len(),
{
    if ls.len() == 0 {
        Seq::<RecordView>::empty()
    } else {
        match parse_line_spec(ls[0]) {
            Some(rec) => seq![rec] + expand_records(ls.drop_first()),
            None => expand_records(ls.drop_first()),
        }
    }
}

/// The records an entire line-format text yields.
pub open spec fn parse_lines_spec(text: Seq<char>) -> Seq<RecordView> {
    expand_records(split_char_spec(text, '\n'))
}

/// Parses one line-format line, as `parse_line_spec` describes.
pub fn parse_line(line: &str) -> (r: Option<SnippetRecord>)
    ensures
        (match (r, parse_line_spec(line@)) {
            (Some(rec), Some(rv)) => rec@ == rv,
            (None, None) => true,
            _ => false,
        }),
{
    proof {
        reveal_strlit(":=");
        assert(":="@ =~= assign_sep());
    }
    let n = line.unicode_len();
    match find_sub(line, ":=", 0) {
        None => None,
        Some(i) => {
            proof {
                lemma_find_from(line@, assign_sep(), 0);
            }
            let tpart = line.substring_char(0, i);
            let rest = line.substring_char(i + 2, n);
            proof {
                assert(rest@ =~= line@.skip(i as int + 2));
            }
            let rn = rest.unicode_len();
            match find_char(rest, '!', 0) {
                None => None,
                Some(j) => {
                    proof {
                        lemma_find_char_from(rest@, '!', 0);
                    }
                    let rpart = rest.substring_char(0, j);
                    let opart = rest.substring_char(j + 1, rn);
                    proof {
                        assert(opart@ =~= rest@.skip(j as int + 1));
                    }
                    let trigger = trim_str(tpart).to_owned();
                    let replacement = trim_str(rpart).to_owned();
                    let options = trim_str(opart).to_owned();
                    Some(SnippetRecord { trigger, replacement, options })
                },
            }
        },
    }
}

/// Parses a whole line-format text into its records, as
/// `parse_lines_spec` describes.
pub fn parse_lines(text: &str) -> (r: Vec<SnippetRecord>)
    ensures
        r@.map_values(|x: SnippetRecord| x@) == parse_lines_spec(text@),
{
    let n = text.unicode_len();
    let mut out: Vec<SnippetRecord> = Vec::new();
    let mut pos: usize = 0;
    proof {
        assert(out@.map_values(|x: SnippetRecord| x@) =~= Seq::<RecordView>::empty());
        assert(Seq::<RecordView>::empty() + expand_records(split_char_from(text@, '\n', 0))
            =~= expand_records(split_char_spec(text@, '\n')));
    }
    loop
        invariant_except_break
            0 <= pos <= n,
            n == text@.len(),
            parse_lines_spec(text@) == out@.map_values(|x: SnippetRecord| x@) + expand_records(
                split_char_from(text@, '\n', pos as int),
            ),
        ensures
            parse_lines_spec(text@) == out@.map_values(|x: SnippetRecord| x@),
        decreases n - pos,
    {
        let ghost prev = out@.map_values(|x: SnippetRecord| x@);
        match find_char(text, '\n', pos) {
            Some(idx) => {
                proof {
                    lemma_find_char_from(text@, '\n', pos as int);
                }
                let line = text.substring_char(pos, idx);
                let parsed = parse_line(line);
                proof {
                    let ls = split_char_from(text@, '\n', pos as int);
                    let rest = split_char_from(text@, '\n', idx as int + 1);
                    assert(ls == seq![line@] + rest);
                    assert(ls.len() > 0 && ls[0] == line@ && ls.drop_first() =~= rest);
                }
                match parsed {
                    Some(rec) => {
                        proof {
                            let rv = parse_line_spec(line@)->Some_0;
                            assert(prev + (seq![rv] + expand_records(
                                split_char_from(text@, '\n', idx as int + 1),
                            )) =~= prev.push(rv) + expand_records(
                                split_char_from(text@, '\n', idx as int + 1),
                            ));
                        }
                        let ghost before = out@;
                        out.push(rec);
                        proof {
                            assert(out@.map_values(|x: SnippetRecord| x@) =~= before.map_values(
                                |x: SnippetRecord| x@,
                            ).push(rec@));
                        }
                    },
                    None => {},
                }
                pos = idx + 1;
            },
            None => {
                let line = text.substring_char(pos, n);
                let parsed = parse_line(line);
                proof {
                    let ls = split_char_from(text@, '\n', pos as int);
                    assert(ls == seq![line@]);
                    assert(ls.len() == 1 && ls[0] == line@ && ls.drop_first()
                        =~= Seq::<Seq<char>>::empty());
                    assert(expand_records(Seq::<Seq<char>>::empty()) =~= Seq::<RecordView>::empty());
                }
                match parsed {
                    Some(rec) => {
                        proof {
                            let rv = parse_line_spec(line@)->Some_0;
                            assert(prev + (seq![rv] + Seq::<RecordView>::empty()) =~= prev.push(
                                rv,
                            ));
                        }
                        let ghost before = out@;
                        out.push(rec);
                        proof {
                            assert(out@.map_values(|x: SnippetRecord| x@) =~= before.map_values(
                                |x: SnippetRecord| x@,
                            ).push(rec@));
                        }
                    },
                    None => {
                        proof {
                            assert(prev + Seq::<RecordView>::empty() =~= prev);
                        }
                    },
                }
                break;
            },
        }
    }
    out
}

/// Expand on a whole document: parses the line-format text into records
/// and splices them, as a JSON array of three-field objects, into the JSON
/// document text, returning the pretty-printed result.  Fails with
/// `JsonError` when the document text is not a JSON object.
pub fn export_snippets(lines_text: &str, doc_text: &str) -> (r: Result<String, SnippetsError>)
    ensures
        (match r {
            Ok(out) => json_object_text(doc_text@) && out@ == json_spliced(
                doc_text@,
                parse_lines_spec(lines_text@),
            ),
            Err(SnippetsError::JsonError(_)) => !json_object_text(doc_text@),
            Err(_) => false,
        }),
{
    let recs = parse_lines(lines_text);
    match splice_snippets(doc_text, &recs) {
        Ok(out) => Ok(out),
        Err(e) => Err(SnippetsError::JsonError(e)),
    }
}

} // verus!
