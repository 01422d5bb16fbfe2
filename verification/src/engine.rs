//! The redaction engine: consumes the ordered lines of one file, resolves
//! private regions with the directive parser, and produces the transformed
//! line sequence, with each region hidden or replaced by placeholder lines.
//!
//! The resolver is a flat state machine over the line sequence: outside a
//! region it copies lines verbatim; a `Private` directive forms a one-line
//! region; a `BeginPrivate` directive opens a region that the first
//! `EndPrivate` closes, with nesting refused and interior `Private` lines
//! treated as ordinary content. A region with `no_hint` vanishes (absorbing
//! one trailing blank line when blanks surround it); otherwise one or two
//! placeholder lines, indented like the directive, stand in for it.

use vstd::prelude::*;

use crate::bytes::{
    append_bytes, clone_bytes, find_at, indent_of, indent_prefix, is_blank, is_blank_line,
    lemma_bytes_deep_view, lemma_find_bounds, lemma_lines_deep_view, spec_find, subvec,
};
use crate::directive::{parse_token, spec_parse_token, ParseError, Token, TokenKind};

verus! {

broadcast use lemma_find_bounds, lemma_bytes_deep_view, lemma_lines_deep_view;

/// Why redaction of a file failed; `line` is 1-based.
#[derive(Clone, Copy, Debug, PartialEq, Eq, Structural)]
pub enum RedactError {
    /// Text after the control prefix matches no keyword.
    UnknownCommand { line: usize },
    /// A property list opens but the line does not end with `)`.
    UnclosedParen { line: usize },
    /// A property token is not a recognized property keyword.
    UnknownProperty { line: usize },
    /// An `end_private` with no open block before it.
    UnpairedEnd { line: usize },
    /// A `begin_private` inside an open block.
    NestedBegin { line: usize },
    /// A `begin_private` that no `end_private` closes.
    UnclosedBegin { line: usize },
}

impl RedactError {
    /// The 1-based line the error names.
    pub open spec fn spec_line(self) -> usize {
        match self {
            RedactError::UnknownCommand { line } => line,
            RedactError::UnclosedParen { line } => line,
            RedactError::UnknownProperty { line } => line,
            RedactError::UnpairedEnd { line } => line,
            RedactError::NestedBegin { line } => line,
            RedactError::UnclosedBegin { line } => line,
        }
    }

    /// The 1-based line the error names.
    pub fn line(&self) -> (r: usize)
        ensures
            r == self.spec_line(),
    {
        match self {
            RedactError::UnknownCommand { line } => *line,
            RedactError::UnclosedParen { line } => *line,
            RedactError::UnknownProperty { line } => *line,
            RedactError::UnpairedEnd { line } => *line,
            RedactError::NestedBegin { line } => *line,
            RedactError::UnclosedBegin { line } => *line,
        }
    }
}

/// A parse failure, placed at its 1-based line.
pub open spec fn parse_error_at(e: ParseError, ln: int) -> RedactError {
    match e {
        ParseError::UnknownCommand => RedactError::UnknownCommand { line: ln as usize },
        ParseError::UnclosedParen => RedactError::UnclosedParen { line: ln as usize },
        ParseError::UnknownProperty => RedactError::UnknownProperty { line: ln as usize },
    }
}

fn to_redact_error(e: ParseError, ln: usize) -> (r: RedactError)
    ensures
        r == parse_error_at(e, ln as int),
{
    match e {
        ParseError::UnknownCommand => RedactError::UnknownCommand { line: ln },
        ParseError::UnclosedParen => RedactError::UnclosedParen { line: ln },
        ParseError::UnknownProperty => RedactError::UnknownProperty { line: ln },
    }
}

pub open spec fn spec_todo_line_text() -> Seq<u8> {
    seq![
        47u8, 47u8, 32u8, 84u8, 79u8, 68u8, 79u8, 58u8, 32u8, 121u8, 111u8, 117u8, 114u8, 32u8,
        99u8, 111u8, 100u8, 101u8, 32u8, 104u8, 101u8, 114u8, 101u8, 46u8,
    ]
}

pub open spec fn spec_unimpl_line_text() -> Seq<u8> {
    seq![
        117u8, 110u8, 105u8, 109u8, 112u8, 108u8, 101u8, 109u8, 101u8, 110u8, 116u8, 101u8, 100u8,
        33u8, 40u8, 41u8,
    ]
}

/// `// TODO: your code here.`, the placeholder hint line.
pub fn todo_line_text() -> (r: Vec<u8>)
    ensures
        r@ == spec_todo_line_text(),
{
    let mut v: Vec<u8> = Vec::new();
    v.push(47);
    v.push(47);
    v.push(32);
    v.push(84);
    v.push(79);
    v.push(68);
    v.push(79);
    v.push(58);
    v.push(32);
    v.push(121);
    v.push(111);
    v.push(117);
    v.push(114);
    v.push(32);
    v.push(99);
    v.push(111);
    v.push(100);
    v.push(101);
    v.push(32);
    v.push(104);
    v.push(101);
    v.push(114);
    v.push(101);
    v.push(46);
    proof {
        assert(v@ =~= spec_todo_line_text());
    }
    v
}

/// `unimplemented!()`, the run-time safety-net placeholder line.
pub fn unimpl_line_text() -> (r: Vec<u8>)
    ensures
        r@ == spec_unimpl_line_text(),
{
    let mut v: Vec<u8> = Vec::new();
    v.push(117);
    v.push(110);
    v.push(105);
    v.push(109);
    v.push(112);
    v.push(108);
    v.push(101);
    v.push(109);
    v.push(101);
    v.push(110);
    v.push(116);
    v.push(101);
    v.push(100);
    v.push(33);
    v.push(40);
    v.push(41);
    proof {
        assert(v@ =~= spec_unimpl_line_text());
    }
    v
}

/// The placeholder lines that stand in for a region opened on `dline`:
/// one hint line, plus a failing statement if `unimplemented` is set, each
/// carrying the directive line's indentation.
pub open spec fn spec_placeholders(dline: Seq<u8>, t: Token) -> Seq<Seq<u8>> {
    if t.unimplemented {
        seq![
            indent_of(dline) + spec_todo_line_text(),
            indent_of(dline) + spec_unimpl_line_text(),
        ]
    } else {
        seq![indent_of(dline) + spec_todo_line_text()]
    }
}

/// First line at or after `start` that carries a directive.
pub open spec fn spec_next_token(lines: Seq<Seq<u8>>, start: int) -> Result<
    Option<(int, Token)>,
    RedactError,
>
    recommends
        0 <= start,
    decreases lines.len() - start,
{
    if start < 0 || start >= lines.len() {
        Ok(None)
    } else {
        match spec_parse_token(lines[start]) {
            Err(e) => Err(parse_error_at(e, start + 1)),
            Ok(Some(t)) => Ok(Some((start, t))),
            Ok(None) => spec_next_token(lines, start + 1),
        }
    }
}

/// Scan for the line that closes a block opened at `begin`: interior
/// `Private` lines are ordinary content, a second `BeginPrivate` is refused,
/// and running out of lines leaves the block unclosed.
pub open spec fn spec_find_close(lines: Seq<Seq<u8>>, begin: int, pos: int) -> Result<
    int,
    RedactError,
>
    recommends
        0 <= pos,
    decreases lines.len() - pos,
{
    if pos < 0 || pos >= lines.len() {
        Err(RedactError::UnclosedBegin { line: (begin + 1) as usize })
    } else {
        match spec_parse_token(lines[pos]) {
            Err(e) => Err(parse_error_at(e, pos + 1)),
            Ok(None) => spec_find_close(lines, begin, pos + 1),
            Ok(Some(t)) => match t.kind {
                TokenKind::BeginPrivate => Err(
                    RedactError::NestedBegin { line: (pos + 1) as usize },
                ),
                TokenKind::Private => spec_find_close(lines, begin, pos + 1),
                TokenKind::EndPrivate => Ok(pos),
            },
        }
    }
}

/// The transformed suffix of `lines` from `pos` on: verbatim lines outside
/// regions, each region resolved by `spec_emit`.
pub open spec fn spec_redact(lines: Seq<Seq<u8>>, pos: int) -> Result<Seq<Seq<u8>>, RedactError>
    recommends
        0 <= pos,
    decreases lines.len() - pos, 0int,
{
    if pos < 0 || pos >= lines.len() {
        Ok(Seq::empty())
    } else {
        match spec_parse_token(lines[pos]) {
            Err(e) => Err(parse_error_at(e, pos + 1)),
            Ok(None) => match spec_redact(lines, pos + 1) {
                Ok(rest) => Ok(seq![lines[pos]] + rest),
                Err(e) => Err(e),
            },
            Ok(Some(t)) => match t.kind {
                TokenKind::EndPrivate => Err(
                    RedactError::UnpairedEnd { line: (pos + 1) as usize },
                ),
                TokenKind::Private => spec_emit(lines, pos, pos + 1, t),
                TokenKind::BeginPrivate => spec_scan_block(lines, pos, t, pos + 1),
            },
        }
    }
}

/// Inside a block opened at `begin`: skip ordinary and `Private` lines, fail
/// on a nested `BeginPrivate` or an unclosed block, and resolve the region
/// at the first `EndPrivate`.
pub open spec fn spec_scan_block(lines: Seq<Seq<u8>>, begin: int, t: Token, pos: int) -> Result<
    Seq<Seq<u8>>,
    RedactError,
>
    recommends
        0 <= begin < pos,
    decreases lines.len() - pos, 0int,
{
    if pos < 0 || pos >= lines.len() {
        Err(RedactError::UnclosedBegin { line: (begin + 1) as usize })
    } else {
        match spec_parse_token(lines[pos]) {
            Err(e) => Err(parse_error_at(e, pos + 1)),
            Ok(None) => spec_scan_block(lines, begin, t, pos + 1),
            Ok(Some(t2)) => match t2.kind {
                TokenKind::BeginPrivate => Err(
                    RedactError::NestedBegin { line: (pos + 1) as usize },
                ),
                TokenKind::Private => spec_scan_block(lines, begin, t, pos + 1),
                TokenKind::EndPrivate => spec_emit(lines, begin, pos + 1, t),
            },
        }
    }
}

/// Resolve the region `[begin, end)` and continue after it. With `no_hint`
/// nothing is emitted, and when blank lines surround the region the trailing
/// one is absorbed; otherwise the placeholder lines are emitted.
pub open spec fn spec_emit(lines: Seq<Seq<u8>>, begin: int, end: int, t: Token) -> Result<
    Seq<Seq<u8>>,
    RedactError,
>
    recommends
        0 <= begin < end <= lines.len(),
    decreases lines.len() - end, 1int,
{
    if t.no_hint {
        let absorb = begin > 0 && is_blank(lines[begin - 1]) && end < lines.len() && is_blank(
            lines[end],
        );
        if absorb {
            spec_redact(lines, end + 1)
        } else {
            spec_redact(lines, end)
        }
    } else {
        match spec_redact(lines, end) {
            Ok(rest) => Ok(spec_placeholders(lines[begin], t) + rest),
            Err(e) => Err(e),
        }
    }
}

/// `spec_scan_block` resolves to: find the closing line, then emit the
/// region that ends just after it.
proof fn lemma_scan_block_close(lines: Seq<Seq<u8>>, begin: int, t: Token, pos: int)
    ensures
        spec_scan_block(lines, begin, t, pos) == match spec_find_close(lines, begin, pos) {
            Err(e) => Err::<Seq<Seq<u8>>, RedactError>(e),
            Ok(k) => spec_emit(lines, begin, k + 1, t),
        },
    decreases lines.len() - pos,
{
    if pos < 0 || pos >= lines.len() {
    } else {
        match spec_parse_token(lines[pos]) {
            Err(_) => {},
            Ok(None) => {
                lemma_scan_block_close(lines, begin, t, pos + 1);
            },
            Ok(Some(t2)) => {
                if t2.kind == TokenKind::Private {
                    lemma_scan_block_close(lines, begin, t, pos + 1);
                }
            },
        }
    }
}

/// First directive at or after `start`, with its 0-based line index.
pub fn find_token(lines: &Vec<Vec<u8>>, start: usize) -> (r: Result<
    Option<(usize, Token)>,
    RedactError,
>)
    requires
        start <= lines@.len(),
    ensures
        match r {
            Ok(Some((i, t))) => start <= i < lines@.len() && spec_next_token(
                lines.deep_view(),
                start as int,
            ) == Ok::<Option<(int, Token)>, RedactError>(Some((i as int, t))),
            Ok(None) => spec_next_token(lines.deep_view(), start as int) == Ok::<
                Option<(int, Token)>,
                RedactError,
            >(None),
            Err(e) => spec_next_token(lines.deep_view(), start as int) == Err::<
                Option<(int, Token)>,
                RedactError,
            >(e),
        },
{
    let ghost lv = lines.deep_view();
    let mut i: usize = start;
    while i < lines.len()
        invariant
            start <= i <= lines@.len(),
            lv == lines.deep_view(),
            spec_next_token(lv, start as int) == spec_next_token(lv, i as int),
        decreases lines@.len() - i,
    {
        proof {
            assert(lv[i as int] == lines@[i as int]@);
        }
        match parse_token(&lines[i]) {
            Err(e) => {
                return Err(to_redact_error(e, i + 1));
            },
            Ok(Some(t)) => {
                return Ok(Some((i, t)));
            },
            Ok(None) => {
                i = i + 1;
            },
        }
    }
    Ok(None)
}

/// Scan for the closing line of a block opened at `begin`, from `start` on.
fn find_close(lines: &Vec<Vec<u8>>, begin: usize, start: usize) -> (r: Result<usize, RedactError>)
    requires
        begin < lines@.len(),
        start <= lines@.len(),
    ensures
        match r {
            Ok(k) => start <= k < lines@.len() && spec_find_close(
                lines.deep_view(),
                begin as int,
                start as int,
            ) == Ok::<int, RedactError>(k as int),
            Err(e) => spec_find_close(lines.deep_view(), begin as int, start as int) == Err::<
                int,
                RedactError,
            >(e),
        },
{
    let ghost lv = lines.deep_view();
    let mut p: usize = start;
    while p < lines.len()
        invariant
            start <= p <= lines@.len(),
            begin < lines@.len(),
            lv == lines.deep_view(),
            spec_find_close(lv, begin as int, start as int) == spec_find_close(
                lv,
                begin as int,
                p as int,
            ),
        decreases lines@.len() - p,
    {
        proof {
            assert(lv[p as int] == lines@[p as int]@);
        }
        match parse_token(&lines[p]) {
            Err(e) => {
                return Err(to_redact_error(e, p + 1));
            },
            Ok(None) => {
                p = p + 1;
            },
            Ok(Some(t)) => match t.kind {
                TokenKind::BeginPrivate => {
                    return Err(RedactError::NestedBegin { line: p + 1 });
                },
                TokenKind::Private => {
                    p = p + 1;
                },
                TokenKind::EndPrivate => {
                    return Ok(p);
                },
            },
        }
    }
    Err(RedactError::UnclosedBegin { line: begin + 1 })
}

/// A placeholder line: the directive line's indentation, then `text`.
fn make_placeholder(dline: &Vec<u8>, text: &Vec<u8>) -> (r: Vec<u8>)
    ensures
        r@ == indent_of(dline@) + text@,
{
    let mut r = indent_prefix(dline);
    append_bytes(&mut r, text);
    r
}

/// The already-emitted prefix `done` composes with the outcome `rest` of the
/// remaining suffix into the outcome `full` of the whole file.
spec fn compose_out(
    full: Result<Seq<Seq<u8>>, RedactError>,
    done: Seq<Seq<u8>>,
    rest: Result<Seq<Seq<u8>>, RedactError>,
) -> bool {
    match rest {
        Ok(s) => full == Ok::<Seq<Seq<u8>>, RedactError>(done + s),
        Err(e) => full == Err::<Seq<Seq<u8>>, RedactError>(e),
    }
}

proof fn lemma_compose_refl(full: Result<Seq<Seq<u8>>, RedactError>)
    ensures
        compose_out(full, Seq::empty(), full),
{
    match full {
        Ok(s) => {
            assert(Seq::<Seq<u8>>::empty() + s =~= s);
        },
        Err(_) => {},
    }
}

/// Transform the lines of one file: the executable redaction engine.
pub fn redact_lines(lines: &Vec<Vec<u8>>) -> (r: Result<Vec<Vec<u8>>, RedactError>)
    ensures
        match r {
            Ok(out) => spec_redact(lines.deep_view(), 0) == Ok::<Seq<Seq<u8>>, RedactError>(
                out.deep_view(),
            ),
            Err(e) => spec_redact(lines.deep_view(), 0) == Err::<Seq<Seq<u8>>, RedactError>(e),
        },
{
    let ghost lv = lines.deep_view();
    let mut out: Vec<Vec<u8>> = Vec::new();
    let mut pos: usize = 0;
    proof {
        assert(out.deep_view() =~= Seq::<Seq<u8>>::empty());
        lemma_compose_refl(spec_redact(lv, 0));
    }
    while pos < lines.len()
        invariant
            pos <= lines@.len(),
            lv == lines.deep_view(),
            compose_out(spec_redact(lv, 0), out.deep_view(), spec_redact(lv, pos as int)),
        decreases lines@.len() - pos,
    {
        proof {
            assert(lv[pos as int] == lines@[pos as int]@);
        }
        let tk = match parse_token(&lines[pos]) {
            Err(e) => {
                return Err(to_redact_error(e, pos + 1));
            },
            Ok(None) => {
                let ghost out0 = out.deep_view();
                out.push(clone_bytes(&lines[pos]));
                proof {
                    assert(out.deep_view() =~= out0.push(lv[pos as int]));
                    match spec_redact(lv, pos + 1) {
                        Ok(rest) => {
                            assert(out0 + (seq![lv[pos as int]] + rest) =~= out0.push(
                                lv[pos as int],
                            ) + rest);
                        },
                        Err(_) => {},
                    }
                }
                pos = pos + 1;
                continue ;
            },
            Ok(Some(t)) => t,
        };
        let begin = pos;
        let end: usize;
        match tk.kind {
            TokenKind::EndPrivate => {
                return Err(RedactError::UnpairedEnd { line: pos + 1 });
            },
            TokenKind::Private => {
                end = pos + 1;
                proof {
                    assert(spec_redact(lv, pos as int) == spec_emit(
                        lv,
                        pos as int,
                        pos + 1,
                        tk,
                    ));
                }
            },
            TokenKind::BeginPrivate => {
                match find_close(lines, pos, pos + 1) {
                    Err(e) => {
                        proof {
                            lemma_scan_block_close(lv, pos as int, tk, pos + 1);
                        }
                        return Err(e);
                    },
                    Ok(k) => {
                        end = k + 1;
                        proof {
                            lemma_scan_block_close(lv, pos as int, tk, pos + 1);
                            assert(spec_redact(lv, pos as int) == spec_emit(
                                lv,
                                pos as int,
                                end as int,
                                tk,
                            ));
                        }
                    },
                }
            },
        }
        if tk.no_hint {
            let absorb = begin > 0 && end < lines.len() && is_blank_line(&lines[begin - 1])
                && is_blank_line(&lines[end]);
            proof {
                if begin > 0 {
                    assert(lv[begin - 1] == lines@[begin - 1]@);
                }
                if end < lines@.len() {
                    assert(lv[end as int] == lines@[end as int]@);
                }
            }
            if absorb {
                pos = end + 1;
            } else {
                pos = end;
            }
        } else {
            let ghost out0 = out.deep_view();
            let todo = todo_line_text();
            out.push(make_placeholder(&lines[begin], &todo));
            if tk.unimplemented {
                let un = unimpl_line_text();
                out.push(make_placeholder(&lines[begin], &un));
            }
            proof {
                assert(out.deep_view() =~= out0 + spec_placeholders(lv[begin as int], tk));
                match spec_redact(lv, end as int) {
                    Ok(rest) => {
                        assert(out0 + (spec_placeholders(lv[begin as int], tk) + rest) =~= (out0
                            + spec_placeholders(lv[begin as int], tk)) + rest);
                    },
                    Err(_) => {},
                }
            }
            pos = end;
        }
    }
    proof {
        match spec_redact(lv, pos as int) {
            Ok(s) => {
                assert(out.deep_view() + s =~= out.deep_view());
            },
            Err(_) => {},
        }
    }
    Ok(out)
}

pub open spec fn spec_nl_text() -> Seq<u8> {
    seq![10u8]
}

fn nl_text() -> (r: Vec<u8>)
    ensures
        r@ == spec_nl_text(),
{
    let mut v: Vec<u8> = Vec::new();
    v.push(10);
    proof {
        assert(v@ =~= spec_nl_text());
    }
    v
}

/// A line with one carriage return stripped from its end, as a line ending
/// of the form `\r\n` leaves it.
pub open spec fn spec_strip_cr(l: Seq<u8>) -> Seq<u8> {
    if l.len() > 0 && l.last() == 13 {
        l.drop_last()
    } else {
        l
    }
}

/// Split a file into lines at `\n`, stripping one `\r` before each split
/// point; a final line without a terminator is kept as it stands.
pub open spec fn spec_split_lines(s: Seq<u8>) -> Seq<Seq<u8>>
    decreases s.len(),
{
    if s.len() == 0 {
        Seq::empty()
    } else {
        match spec_find(s, spec_nl_text(), 0) {
            None => seq![s],
            Some(i) => seq![spec_strip_cr(s.take(i))] + spec_split_lines(s.skip(i + 1)),
        }
    }
}

/// Join lines, terminating every line with `\n`.
pub open spec fn spec_join_from(lines: Seq<Seq<u8>>, i: int) -> Seq<u8>
    decreases lines.len() - i,
{
    if i < 0 || i >= lines.len() {
        Seq::empty()
    } else {
        lines[i] + spec_nl_text() + spec_join_from(lines, i + 1)
    }
}

/// Join lines, terminating every line with `\n`.
pub open spec fn spec_join(lines: Seq<Seq<u8>>) -> Seq<u8> {
    spec_join_from(lines, 0)
}

/// Split a file into lines, as `spec_split_lines` says.
pub fn split_lines(src: &Vec<u8>) -> (r: Vec<Vec<u8>>)
    ensures
        r.deep_view() == spec_split_lines(src@),
{
    let mut rest = clone_bytes(src);
    let mut out: Vec<Vec<u8>> = Vec::new();
    proof {
        assert(out.deep_view() =~= Seq::<Seq<u8>>::empty());
        assert(out.deep_view() + spec_split_lines(rest@) =~= spec_split_lines(src@));
    }
    while rest.len() > 0
        invariant
            out.deep_view() + spec_split_lines(rest@) == spec_split_lines(src@),
        decreases rest@.len(),
    {
        let ghost rest0 = rest@;
        let ghost out0 = out.deep_view();
        let nl = nl_text();
        match find_at(&rest, &nl, 0) {
            None => {
                let line = clone_bytes(&rest);
                out.push(line);
                rest = Vec::new();
                proof {
                    assert(spec_split_lines(rest0) == seq![rest0]);
                    assert(out.deep_view() =~= out0.push(rest0));
                    assert(spec_split_lines(rest@) =~= Seq::<Seq<u8>>::empty());
                    assert(out.deep_view() + spec_split_lines(rest@) =~= out0 + seq![rest0]);
                }
            },
            Some(i) => {
                let mut line = subvec(&rest, 0, i);
                if line.len() > 0 && line[line.len() - 1] == 13 {
                    line.pop();
                    proof {
                        assert(line@ =~= spec_strip_cr(rest0.take(i as int)));
                    }
                } else {
                    proof {
                        assert(line@ == spec_strip_cr(rest0.take(i as int)));
                    }
                }
                out.push(line);
                rest = subvec(&rest, i + 1, rest.len());
                proof {
                    assert(rest@ == rest0.skip(i + 1));
                    assert(out.deep_view() =~= out0.push(spec_strip_cr(rest0.take(i as int))));
                    assert(out0 + (seq![spec_strip_cr(rest0.take(i as int))] + spec_split_lines(
                        rest0.skip(i + 1),
                    )) =~= out.deep_view() + spec_split_lines(rest@));
                }
            },
        }
    }
    proof {
        assert(spec_split_lines(rest@) =~= Seq::<Seq<u8>>::empty());
        assert(out.deep_view() + spec_split_lines(rest@) =~= out.deep_view());
    }
    out
}

/// Join lines back into file text, as `spec_join` says.
pub fn join_lines(lines: &Vec<Vec<u8>>) -> (r: Vec<u8>)
    ensures
        r@ == spec_join(lines.deep_view()),
{
    let ghost lv = lines.deep_view();
    let mut out: Vec<u8> = Vec::new();
    let mut i: usize = 0;
    while i < lines.len()
        invariant
            i <= lines@.len(),
            lv == lines.deep_view(),
            out@ + spec_join_from(lv, i as int) == spec_join(lv),
        decreases lines@.len() - i,
    {
        let ghost out0 = out@;
        proof {
            assert(lv[i as int] == lines@[i as int]@);
        }
        append_bytes(&mut out, &lines[i]);
        out.push(10);
        proof {
            assert(out@ =~= out0 + lv[i as int] + spec_nl_text());
            assert(out0 + (lv[i as int] + spec_nl_text() + spec_join_from(lv, i + 1)) =~= out@
                + spec_join_from(lv, i + 1));
        }
        i = i + 1;
    }
    proof {
        assert(out@ + spec_join_from(lv, i as int) =~= out@);
    }
    out
}

/// The transformed text of one file, or the first failure.
pub open spec fn spec_process_source(src: Seq<u8>) -> Result<Seq<u8>, RedactError> {
    match spec_redact(spec_split_lines(src), 0) {
        Ok(ls) => Ok(spec_join(ls)),
        Err(e) => Err(e),
    }
}

/// Redact one file's text: split into lines, resolve every private region,
/// join the transformed lines, each terminated with `\n`.
pub fn process_source(src: &Vec<u8>) -> (r: Result<Vec<u8>, RedactError>)
    ensures
        match r {
            Ok(out) => spec_process_source(src@) == Ok::<Seq<u8>, RedactError>(out@),
            Err(e) => spec_process_source(src@) == Err::<Seq<u8>, RedactError>(e),
        },
{
    let lines = split_lines(src);
    match redact_lines(&lines) {
        Ok(out_lines) => Ok(join_lines(&out_lines)),
        Err(e) => Err(e),
    }
}

} // verus!
