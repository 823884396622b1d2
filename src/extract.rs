//! Finding the block in a source text and assembling its JSON document.
//!
//! The scan is a state machine over the lines of the source: it seeks the
//! start marker, then captures rewritten lines until the end marker.

use vstd::prelude::*;
use crate::error::ParseError;
use crate::pattern::{capture_group, find_match, pattern_compiles, pattern_found, pattern_group};
use crate::rules::DatasetSpec;
use crate::text::{
    char_views, chars_of, join_lines, join_with_newlines, lines_of, split_lines, string_of, trim,
    trim_chars,
};
use crate::transform::{line_transformed, transform_chars};

verus! {

/// Where a scan stands after some lines.
pub enum Scan {
    /// No start marker yet.
    Seeking,
    /// Inside the block; `open` is its opening bracket, `frags` what is kept so far.
    Capturing { open: Seq<char>, frags: Seq<Seq<char>> },
    /// The end marker was met; `frags` is the whole document, line by line.
    Done { frags: Seq<Seq<char>> },
    /// A line could not be handled.
    Failed { err: ParseError },
}

pub open spec fn group_text(g: Option<Seq<char>>) -> Seq<char> {
    match g {
        Some(s) => s,
        None => Seq::empty(),
    }
}

/// The bracket that closes `open`: none for anything but `{` and `[`.
pub open spec fn closing_of(open: Seq<char>) -> Seq<char> {
    if open == seq!['{'] {
        seq!['}']
    } else if open == seq!['['] {
        seq![']']
    } else {
        Seq::empty()
    }
}

/// Blank lines and lines that start with `//` are passed over inside a block.
pub open spec fn is_skipped(line: Seq<char>) -> bool {
    trim(line).len() == 0 || (line.len() >= 2 && line[0] == '/' && line[1] == '/')
}

/// The opening bracket that a start line gives: its capture group 1.
pub open spec fn opening_of(ds: DatasetSpec, line: Seq<char>) -> Seq<char> {
    group_text(pattern_group(ds.block_start@, line, 1))
}

/// What a start line puts into the document: the opening bracket, then the
/// text of capture group 2 where that is not empty.
pub open spec fn opening_frags(ds: DatasetSpec, line: Seq<char>) -> Seq<Seq<char>> {
    let open = opening_of(ds, line);
    let rest = group_text(pattern_group(ds.block_start@, line, 2));
    if rest.len() > 0 {
        seq![open, rest]
    } else {
        seq![open]
    }
}

/// One line's effect on the scan.
pub open spec fn scan_step(ds: DatasetSpec, st: Scan, line: Seq<char>) -> Scan {
    match st {
        Scan::Seeking => {
            let start = ds.block_start@;
            if !pattern_compiles(start) {
                Scan::Failed { err: ParseError::InvalidPattern }
            } else if pattern_found(start, line) {
                Scan::Capturing { open: opening_of(ds, line), frags: opening_frags(ds, line) }
            } else {
                Scan::Seeking
            }
        },
        Scan::Capturing { open, frags } => {
            let end = ds.block_end@;
            if !pattern_compiles(end) {
                Scan::Failed { err: ParseError::InvalidPattern }
            } else if pattern_found(end, line) {
                Scan::Done { frags: frags.push(closing_of(open)) }
            } else if is_skipped(line) {
                st
            } else {
                match line_transformed(ds.line_shape, ds.transform_rules@, line) {
                    Ok(t) => Scan::Capturing { open, frags: frags.push(t) },
                    Err(e) => Scan::Failed { err: e },
                }
            }
        },
        _ => st,
    }
}

/// The scan after all of `lines`, from the first.
pub open spec fn scan_lines(ds: DatasetSpec, lines: Seq<Seq<char>>) -> Scan
    decreases lines.len(),
{
    if lines.len() == 0 {
        Scan::Seeking
    } else {
        scan_step(ds, scan_lines(ds, lines.drop_last()), lines.last())
    }
}

/// The scan of a whole source text.
pub open spec fn extraction(ds: DatasetSpec, source: Seq<char>) -> Scan {
    scan_lines(ds, lines_of(source))
}

pub open spec fn is_final(st: Scan) -> bool {
    st is Done || st is Failed
}

/// Once done or failed, the scan stays as it is.
pub proof fn lemma_final_stays(ds: DatasetSpec, lines: Seq<Seq<char>>, i: int)
    requires
        0 <= i <= lines.len(),
        is_final(scan_lines(ds, lines.take(i))),
    ensures
        scan_lines(ds, lines) == scan_lines(ds, lines.take(i)),
    decreases lines.len(),
{
    if i == lines.len() {
        assert(lines.take(i) =~= lines);
    } else {
        assert(lines.drop_last().take(i) =~= lines.take(i));
        lemma_final_stays(ds, lines.drop_last(), i);
    }
}

enum Phase {
    Seeking,
    Capturing,
    Done,
}

spec fn phase_view(phase: Phase, open: Seq<char>, frags: Seq<Seq<char>>) -> Scan {
    match phase {
        Phase::Seeking => Scan::Seeking,
        Phase::Capturing => Scan::Capturing { open, frags },
        Phase::Done => Scan::Done { frags },
    }
}

fn closing_bracket(open: &Vec<char>) -> (r: Vec<char>)
    ensures
        r@ == closing_of(open@),
{
    let mut r: Vec<char> = Vec::new();
    if open.len() == 1 && open[0] == '{' {
        assert(open@ =~= seq!['{']);
        r.push('}');
        assert(r@ =~= seq!['}']);
    } else if open.len() == 1 && open[0] == '[' {
        assert(open@ =~= seq!['[']);
        r.push(']');
        assert(r@ =~= seq![']']);
    } else {
        assert(open@ != seq!['{'] && open@ != seq!['['] ) by {
            if open@.len() == 1 {
                assert(open@ != seq!['{'] ==> open@[0] != '{');
            }
        }
    }
    r
}

fn skipped_line(line: &Vec<char>) -> (r: bool)
    ensures
        r == is_skipped(line@),
{
    trim_chars(line).len() == 0 || (line.len() >= 2 && line[0] == '/' && line[1] == '/')
}

/// Scans `source` for the block that `ds` describes and assembles its JSON text.
///
/// `Ok(None)` where no line matches the start marker; the block's text, its
/// fragments joined by newlines, where the end marker closes it;
/// `UnterminatedBlock` where the source ends inside the block.
pub fn extract_block(ds: &DatasetSpec, source: &str) -> (r: Result<Option<String>, ParseError>)
    ensures
        match extraction(*ds, source@) {
            Scan::Seeking => r matches Ok(None),
            Scan::Capturing { .. } => r == Err::<Option<String>, ParseError>(
                ParseError::UnterminatedBlock,
            ),
            Scan::Done { frags } => r matches Ok(Some(s)) && s@ == join_lines(frags),
            Scan::Failed { err } => r == Err::<Option<String>, ParseError>(err),
        },
{
    let lines = split_lines(&chars_of(source));
    let ghost ls = char_views(lines@);
    let mut phase = Phase::Seeking;
    let mut open: Vec<char> = Vec::new();
    let mut frags: Vec<Vec<char>> = Vec::new();
    let mut i: usize = 0;
    assert(ls.take(0) =~= Seq::<Seq<char>>::empty());
    while i < lines.len()
        invariant
            i <= lines.len(),
            ls == char_views(lines@),
            ls == lines_of(source@),
            scan_lines(*ds, ls.take(i as int)) == phase_view(phase, open@, char_views(frags@)),
            !(phase is Done),
            phase is Seeking ==> frags@.len() == 0,
        decreases lines.len() - i,
    {
        let line = &lines[i];
        let ghost prev_frags = char_views(frags@);
        assert(ls.take(i + 1).drop_last() =~= ls.take(i as int));
        assert(ls.take(i + 1).last() == line@);
        let text = string_of(line.as_slice());
        match phase {
            Phase::Seeking => {
                match find_match(ds.block_start.as_str(), text.as_str()) {
                    None => {
                        proof {
                            lemma_final_stays(*ds, ls, i + 1);
                        }
                        return Err(ParseError::InvalidPattern);
                    },
                    Some(true) => {
                        let g1 = capture_group(ds.block_start.as_str(), text.as_str(), 1);
                        let g2 = capture_group(ds.block_start.as_str(), text.as_str(), 2);
                        open = match g1 {
                            Some(Some(s)) => chars_of(s.as_str()),
                            _ => Vec::new(),
                        };
                        let rest = match g2 {
                            Some(Some(s)) => chars_of(s.as_str()),
                            _ => Vec::new(),
                        };
                        let first = crate::text::slice_chars(&open, 0, open.len());
                        assert(first@ =~= open@);
                        frags.push(first);
                        if rest.len() > 0 {
                            frags.push(rest);
                        }
                        phase = Phase::Capturing;
                        assert(char_views(frags@) =~= (if rest@.len() > 0 {
                            seq![open@, rest@]
                        } else {
                            seq![open@]
                        }));
                    },
                    Some(false) => {},
                }
            },
            Phase::Capturing => {
                match find_match(ds.block_end.as_str(), text.as_str()) {
                    None => {
                        proof {
                            lemma_final_stays(*ds, ls, i + 1);
                        }
                        return Err(ParseError::InvalidPattern);
                    },
                    Some(true) => {
                        let close = closing_bracket(&open);
                        frags.push(close);
                        assert(char_views(frags@) =~= prev_frags.push(closing_of(open@)));
                        proof {
                            lemma_final_stays(*ds, ls, i + 1);
                        }
                        let doc = join_with_newlines(&frags);
                        return Ok(Some(string_of(doc.as_slice())));
                    },
                    Some(false) => {
                        if !skipped_line(line) {
                            match transform_chars(ds.line_shape, &ds.transform_rules, line) {
                                Ok(t) => {
                                    frags.push(t);
                                    assert(char_views(frags@) =~= prev_frags.push(t@));
                                },
                                Err(e) => {
                                    proof {
                                        lemma_final_stays(*ds, ls, i + 1);
                                    }
                                    return Err(e);
                                },
                            }
                        }
                    },
                }
            },
            Phase::Done => {},
        }
        i = i + 1;
    }
    assert(ls.take(i as int) =~= ls);
    match phase {
        Phase::Seeking => Ok(None),
        _ => Err(ParseError::UnterminatedBlock),
    }
}

/// Whether some line matches the start marker of `ds`.
pub open spec fn has_start(ds: DatasetSpec, lines: Seq<Seq<char>>) -> bool {
    exists|k: int| 0 <= k < lines.len() && pattern_found(ds.block_start@, #[trigger] lines[k])
}

/// Whether some line matches the end marker of `ds`.
pub open spec fn has_end(ds: DatasetSpec, lines: Seq<Seq<char>>) -> bool {
    exists|k: int| 0 <= k < lines.len() && pattern_found(ds.block_end@, #[trigger] lines[k])
}

/// Whether every line that a block would keep can be rewritten.
pub open spec fn all_lines_rewrite(ds: DatasetSpec, lines: Seq<Seq<char>>) -> bool {
    forall|k: int|
        0 <= k < lines.len() && !is_skipped(lines[k]) ==> (#[trigger] line_transformed(
            ds.line_shape,
            ds.transform_rules@,
            lines[k],
        )) is Ok
}

proof fn lemma_scan_without_start(ds: DatasetSpec, lines: Seq<Seq<char>>)
    requires
        pattern_compiles(ds.block_start@),
        !has_start(ds, lines),
    ensures
        scan_lines(ds, lines) is Seeking,
    decreases lines.len(),
{
    if lines.len() > 0 {
        let init = lines.drop_last();
        assert(!has_start(ds, init)) by {
            if has_start(ds, init) {
                let k = choose|k: int| 0 <= k < init.len() && pattern_found(ds.block_start@, #[trigger] init[k]);
                assert(lines[k] == init[k]);
            }
        }
        lemma_scan_without_start(ds, init);
        assert(lines[lines.len() - 1] == lines.last());
    }
}

/// A source with no start marker yields no block, and no error.
pub proof fn lemma_missing_start_marker(ds: DatasetSpec, source: Seq<char>)
    requires
        pattern_compiles(ds.block_start@),
        !has_start(ds, lines_of(source)),
    ensures
        extraction(ds, source) is Seeking,
{
    lemma_scan_without_start(ds, lines_of(source));
}

proof fn lemma_capture_without_end(
    ds: DatasetSpec,
    a: Seq<Seq<char>>,
    open: Seq<char>,
    f0: Seq<Seq<char>>,
    rest: Seq<Seq<char>>,
    k: int,
)
    requires
        pattern_compiles(ds.block_end@),
        scan_lines(ds, a) == (Scan::Capturing { open, frags: f0 }),
        0 <= k <= rest.len(),
        !has_end(ds, rest),
    ensures
        scan_lines(ds, a + rest.take(k)) is Capturing || scan_lines(ds, a + rest.take(k)) is Failed,
        all_lines_rewrite(ds, rest) ==> scan_lines(ds, a + rest.take(k)) is Capturing,
    decreases k,
{
    if k == 0 {
        assert(a + rest.take(0) =~= a);
    } else {
        lemma_capture_without_end(ds, a, open, f0, rest, k - 1);
        let s = a + rest.take(k);
        assert(s.drop_last() =~= a + rest.take(k - 1));
        assert(s.last() == rest[k - 1]);
        assert(!pattern_found(ds.block_end@, rest[k - 1]));
        if all_lines_rewrite(ds, rest) {
            assert(!is_skipped(rest[k - 1]) ==> line_transformed(
                ds.line_shape,
                ds.transform_rules@,
                rest[k - 1],
            ) is Ok);
        }
    }
}

/// A source with a start line and no end marker after it never yields a
/// document: its scan ends inside the block, and where every line after the
/// start line that is kept can be rewritten, that is an unterminated block.
pub proof fn lemma_missing_end_marker(
    ds: DatasetSpec,
    source: Seq<char>,
    pre: Seq<Seq<char>>,
    start: Seq<char>,
    rest: Seq<Seq<char>>,
)
    requires
        pattern_compiles(ds.block_start@),
        pattern_compiles(ds.block_end@),
        lines_of(source) == pre + seq![start] + rest,
        !has_start(ds, pre),
        pattern_found(ds.block_start@, start),
        !has_end(ds, rest),
    ensures
        !(extraction(ds, source) is Done),
        all_lines_rewrite(ds, rest) ==> extraction(ds, source) is Capturing,
{
    lemma_scan_without_start(ds, pre);
    let a = pre + seq![start];
    assert(a.drop_last() =~= pre);
    assert(a.last() == start);
    let f0 = opening_frags(ds, start);
    let open = opening_of(ds, start);
    assert(scan_lines(ds, a) == (Scan::Capturing { open, frags: f0 }));
    lemma_capture_without_end(ds, a, open, f0, rest, rest.len() as int);
    assert(rest.take(rest.len() as int) =~= rest);
}

/// Each line of `body` rewritten by the rules of `ds`.
pub open spec fn rewritten(ds: DatasetSpec, body: Seq<Seq<char>>) -> Seq<Seq<char>> {
    body.map_values(|l: Seq<char>| line_transformed(ds.line_shape, ds.transform_rules@, l)->Ok_0)
}

/// Whether `line` is kept and rewritten inside a block of `ds`.
pub open spec fn is_interior(ds: DatasetSpec, line: Seq<char>) -> bool {
    &&& !pattern_found(ds.block_end@, line)
    &&& !is_skipped(line)
    &&& line_transformed(ds.line_shape, ds.transform_rules@, line) is Ok
}

proof fn lemma_capture_body(
    ds: DatasetSpec,
    a: Seq<Seq<char>>,
    open: Seq<char>,
    f0: Seq<Seq<char>>,
    body: Seq<Seq<char>>,
    k: int,
)
    requires
        pattern_compiles(ds.block_end@),
        scan_lines(ds, a) == (Scan::Capturing { open, frags: f0 }),
        0 <= k <= body.len(),
        forall|j: int| 0 <= j < body.len() ==> is_interior(ds, #[trigger] body[j]),
    ensures
        scan_lines(ds, a + body.take(k)) == (Scan::Capturing {
            open,
            frags: f0 + rewritten(ds, body.take(k)),
        }),
    decreases k,
{
    if k == 0 {
        assert(a + body.take(0) =~= a);
        assert(f0 + rewritten(ds, body.take(0)) =~= f0);
    } else {
        lemma_capture_body(ds, a, open, f0, body, k - 1);
        let s = a + body.take(k);
        assert(s.drop_last() =~= a + body.take(k - 1));
        assert(s.last() == body[k - 1]);
        assert(is_interior(ds, body[k - 1]));
        assert(f0 + rewritten(ds, body.take(k)) =~= (f0 + rewritten(ds, body.take(k - 1))).push(
            line_transformed(ds.line_shape, ds.transform_rules@, body[k - 1])->Ok_0,
        ));
    }
}

/// A source whose lines are: lines without a start marker, a start line,
/// interior lines (no end marker, no blank or comment line, each one that the
/// rules can rewrite), an end line, and anything after it, yields the
/// document made of the opening, each interior line rewritten in order, and
/// the closing bracket.
pub proof fn lemma_block_round_trip(
    ds: DatasetSpec,
    source: Seq<char>,
    pre: Seq<Seq<char>>,
    start: Seq<char>,
    body: Seq<Seq<char>>,
    end: Seq<char>,
    post: Seq<Seq<char>>,
)
    requires
        pattern_compiles(ds.block_start@),
        pattern_compiles(ds.block_end@),
        lines_of(source) == pre + seq![start] + body + seq![end] + post,
        !has_start(ds, pre),
        pattern_found(ds.block_start@, start),
        forall|j: int| 0 <= j < body.len() ==> is_interior(ds, #[trigger] body[j]),
        pattern_found(ds.block_end@, end),
    ensures
        extraction(ds, source) == (Scan::Done {
            frags: opening_frags(ds, start) + rewritten(ds, body) + seq![
                closing_of(opening_of(ds, start)),
            ],
        }),
{
    let ls = lines_of(source);
    lemma_scan_without_start(ds, pre);
    let a = pre + seq![start];
    assert(a.drop_last() =~= pre);
    assert(a.last() == start);
    let f0 = opening_frags(ds, start);
    let open = opening_of(ds, start);
    assert(scan_lines(ds, a) == (Scan::Capturing { open, frags: f0 }));
    lemma_capture_body(ds, a, open, f0, body, body.len() as int);
    assert(body.take(body.len() as int) =~= body);
    let b = a + body + seq![end];
    assert(b.drop_last() =~= a + body.take(body.len() as int));
    assert(b.last() == end);
    assert(f0 + rewritten(ds, body) + seq![closing_of(open)] =~= (f0 + rewritten(ds, body)).push(
        closing_of(open),
    ));
    assert(ls.take(b.len() as int) =~= b);
    lemma_final_stays(ds, ls, b.len() as int);
}

} // verus!
