//! Laws of the redaction engine, stated over the engine's own spec
//! functions and proved once and for all: identity on directive-free input,
//! exact replacement of single-line and block regions, the `no_hint`
//! blank-line collapse, and idempotence on directive-free input.

use vstd::prelude::*;

use crate::bytes::{is_blank, lemma_find_bounds, spec_find};
use crate::directive::{spec_parse_token, ParseError, Token, TokenKind};
use crate::engine::{
    spec_emit, spec_join, spec_join_from, spec_nl_text, spec_placeholders, spec_process_source,
    spec_redact, spec_scan_block, spec_split_lines, spec_strip_cr, RedactError,
};

verus! {

broadcast use lemma_find_bounds;

/// A line that may stand inside an open block: no directive, or a `Private`
/// directive, which the block scan treats as ordinary content.
pub open spec fn block_interior_line(l: Seq<u8>) -> bool {
    match spec_parse_token(l) {
        Ok(None) => true,
        Ok(Some(t)) => t.kind == TokenKind::Private,
        Err(_) => false,
    }
}

/// Lines without directives from `pos` on are copied verbatim.
proof fn lemma_redact_identity_from(lines: Seq<Seq<u8>>, pos: int)
    requires
        0 <= pos <= lines.len(),
        forall|i: int| pos <= i < lines.len() ==> spec_parse_token(#[trigger] lines[i]) == Ok::<
            Option<Token>,
            ParseError,
        >(None),
    ensures
        spec_redact(lines, pos) == Ok::<Seq<Seq<u8>>, RedactError>(lines.skip(pos)),
    decreases lines.len() - pos,
{
    if pos == lines.len() {
        assert(lines.skip(pos) =~= Seq::<Seq<u8>>::empty());
    } else {
        lemma_redact_identity_from(lines, pos + 1);
        assert(seq![lines[pos]] + lines.skip(pos + 1) =~= lines.skip(pos));
    }
}

/// Directive-free lines in `[pos, k)` pass through verbatim, composing with
/// whatever the engine does from `k` on.
proof fn lemma_redact_skip_clean(lines: Seq<Seq<u8>>, pos: int, k: int)
    requires
        0 <= pos <= k <= lines.len(),
        forall|i: int| pos <= i < k ==> spec_parse_token(#[trigger] lines[i]) == Ok::<
            Option<Token>,
            ParseError,
        >(None),
    ensures
        match spec_redact(lines, k) {
            Ok(s) => spec_redact(lines, pos) == Ok::<Seq<Seq<u8>>, RedactError>(
                lines.subrange(pos, k) + s,
            ),
            Err(e) => spec_redact(lines, pos) == Err::<Seq<Seq<u8>>, RedactError>(e),
        },
    decreases k - pos,
{
    if pos == k {
        match spec_redact(lines, k) {
            Ok(s) => {
                assert(lines.subrange(pos, k) + s =~= s);
            },
            Err(_) => {},
        }
    } else {
        lemma_redact_skip_clean(lines, pos + 1, k);
        match spec_redact(lines, k) {
            Ok(s) => {
                assert(seq![lines[pos]] + (lines.subrange(pos + 1, k) + s) =~= lines.subrange(
                    pos,
                    k,
                ) + s);
            },
            Err(_) => {},
        }
    }
}

/// Scanning an open block over interior content reaches the close at `e` and
/// resolves the region `[begin, e + 1)`.
proof fn lemma_scan_clean(lines: Seq<Seq<u8>>, begin: int, t: Token, pos: int, e: int, te: Token)
    requires
        0 <= begin,
        begin < pos <= e < lines.len(),
        forall|i: int| pos <= i < e ==> block_interior_line(#[trigger] lines[i]),
        spec_parse_token(lines[e]) == Ok::<Option<Token>, ParseError>(Some(te)),
        te.kind == TokenKind::EndPrivate,
    ensures
        spec_scan_block(lines, begin, t, pos) == spec_emit(lines, begin, e + 1, t),
    decreases e - pos,
{
    if pos < e {
        lemma_scan_clean(lines, begin, t, pos + 1, e, te);
    }
}

/// Identity: a file with no directives is transformed into itself.
pub proof fn lemma_identity_no_directives(lines: Seq<Seq<u8>>)
    requires
        forall|i: int| 0 <= i < lines.len() ==> spec_parse_token(#[trigger] lines[i]) == Ok::<
            Option<Token>,
            ParseError,
        >(None),
    ensures
        spec_redact(lines, 0) == Ok::<Seq<Seq<u8>>, RedactError>(lines),
{
    lemma_redact_identity_from(lines, 0);
    assert(lines.skip(0) =~= lines);
}

/// A single hinted `Private` line is replaced by exactly its placeholder
/// lines; every other line is untouched.
pub proof fn lemma_private_line_replaced(lines: Seq<Seq<u8>>, k: int, t: Token)
    requires
        0 <= k < lines.len(),
        spec_parse_token(lines[k]) == Ok::<Option<Token>, ParseError>(Some(t)),
        t.kind == TokenKind::Private,
        !t.no_hint,
        forall|i: int|
            0 <= i < lines.len() && i != k ==> spec_parse_token(#[trigger] lines[i]) == Ok::<
                Option<Token>,
                ParseError,
            >(None),
    ensures
        spec_redact(lines, 0) == Ok::<Seq<Seq<u8>>, RedactError>(
            lines.take(k) + spec_placeholders(lines[k], t) + lines.skip(k + 1),
        ),
{
    lemma_redact_skip_clean(lines, 0, k);
    lemma_redact_identity_from(lines, k + 1);
    assert(spec_redact(lines, k) == spec_emit(lines, k, k + 1, t));
    assert(spec_emit(lines, k, k + 1, t) == Ok::<Seq<Seq<u8>>, RedactError>(
        spec_placeholders(lines[k], t) + lines.skip(k + 1),
    ));
    assert(lines.subrange(0, k) + (spec_placeholders(lines[k], t) + lines.skip(k + 1)) =~= lines.take(
        k,
    ) + spec_placeholders(lines[k], t) + lines.skip(k + 1));
}

/// A well-formed hinted block, holding only ordinary content and interior
/// `Private` lines, collapses to its one or two placeholder lines: nothing
/// of its content reaches the output.
pub proof fn lemma_block_collapse(lines: Seq<Seq<u8>>, b: int, e: int, tb: Token, te: Token)
    requires
        0 <= b < e < lines.len(),
        spec_parse_token(lines[b]) == Ok::<Option<Token>, ParseError>(Some(tb)),
        tb.kind == TokenKind::BeginPrivate,
        !tb.no_hint,
        spec_parse_token(lines[e]) == Ok::<Option<Token>, ParseError>(Some(te)),
        te.kind == TokenKind::EndPrivate,
        forall|i: int| b < i < e ==> block_interior_line(#[trigger] lines[i]),
        forall|i: int|
            (0 <= i < b || e < i < lines.len()) ==> spec_parse_token(#[trigger] lines[i]) == Ok::<
                Option<Token>,
                ParseError,
            >(None),
    ensures
        spec_redact(lines, 0) == Ok::<Seq<Seq<u8>>, RedactError>(
            lines.take(b) + spec_placeholders(lines[b], tb) + lines.skip(e + 1),
        ),
{
    lemma_redact_skip_clean(lines, 0, b);
    lemma_scan_clean(lines, b, tb, b + 1, e, te);
    lemma_redact_identity_from(lines, e + 1);
    assert(lines.subrange(0, b) + (spec_placeholders(lines[b], tb) + lines.skip(e + 1))
        =~= lines.take(b) + spec_placeholders(lines[b], tb) + lines.skip(e + 1));
}

/// A `no_hint` block leaves no placeholder: when the blank-collapse
/// condition does not hold, the output is simply everything around the
/// region.
pub proof fn lemma_no_hint_collapse(lines: Seq<Seq<u8>>, b: int, e: int, tb: Token, te: Token)
    requires
        0 <= b < e < lines.len(),
        spec_parse_token(lines[b]) == Ok::<Option<Token>, ParseError>(Some(tb)),
        tb.kind == TokenKind::BeginPrivate,
        tb.no_hint,
        spec_parse_token(lines[e]) == Ok::<Option<Token>, ParseError>(Some(te)),
        te.kind == TokenKind::EndPrivate,
        forall|i: int| b < i < e ==> block_interior_line(#[trigger] lines[i]),
        forall|i: int|
            (0 <= i < b || e < i < lines.len()) ==> spec_parse_token(#[trigger] lines[i]) == Ok::<
                Option<Token>,
                ParseError,
            >(None),
        !(b > 0 && is_blank(lines[b - 1]) && e + 1 < lines.len() && is_blank(lines[e + 1])),
    ensures
        spec_redact(lines, 0) == Ok::<Seq<Seq<u8>>, RedactError>(lines.take(b) + lines.skip(e + 1)),
{
    lemma_redact_skip_clean(lines, 0, b);
    lemma_scan_clean(lines, b, tb, b + 1, e, te);
    lemma_redact_identity_from(lines, e + 1);
    assert(lines.subrange(0, b) + lines.skip(e + 1) =~= lines.take(b) + lines.skip(e + 1));
}

/// A `no_hint` block with blank lines on both sides leaves exactly one
/// blank line (the leading one) where the block stood.
pub proof fn lemma_no_hint_blank_collapse(
    lines: Seq<Seq<u8>>,
    b: int,
    e: int,
    tb: Token,
    te: Token,
)
    requires
        0 <= b < e < lines.len(),
        spec_parse_token(lines[b]) == Ok::<Option<Token>, ParseError>(Some(tb)),
        tb.kind == TokenKind::BeginPrivate,
        tb.no_hint,
        spec_parse_token(lines[e]) == Ok::<Option<Token>, ParseError>(Some(te)),
        te.kind == TokenKind::EndPrivate,
        forall|i: int| b < i < e ==> block_interior_line(#[trigger] lines[i]),
        forall|i: int|
            (0 <= i < b || e < i < lines.len()) ==> spec_parse_token(#[trigger] lines[i]) == Ok::<
                Option<Token>,
                ParseError,
            >(None),
        b > 0,
        is_blank(lines[b - 1]),
        e + 1 < lines.len(),
        is_blank(lines[e + 1]),
    ensures
        spec_redact(lines, 0) == Ok::<Seq<Seq<u8>>, RedactError>(lines.take(b) + lines.skip(e + 2)),
{
    lemma_redact_skip_clean(lines, 0, b);
    lemma_scan_clean(lines, b, tb, b + 1, e, te);
    lemma_redact_identity_from(lines, e + 2);
    assert(lines.subrange(0, b) + lines.skip(e + 2) =~= lines.take(b) + lines.skip(e + 2));
}

/// A single `no_hint` `Private` line vanishes without a placeholder; when
/// blank lines surround it, the trailing one is absorbed, so exactly one
/// blank line remains.
pub proof fn lemma_private_no_hint_line(lines: Seq<Seq<u8>>, k: int, t: Token)
    requires
        0 <= k < lines.len(),
        spec_parse_token(lines[k]) == Ok::<Option<Token>, ParseError>(Some(t)),
        t.kind == TokenKind::Private,
        t.no_hint,
        forall|i: int|
            0 <= i < lines.len() && i != k ==> spec_parse_token(#[trigger] lines[i]) == Ok::<
                Option<Token>,
                ParseError,
            >(None),
    ensures
        spec_redact(lines, 0) == Ok::<Seq<Seq<u8>>, RedactError>(
            if k > 0 && is_blank(lines[k - 1]) && k + 1 < lines.len() && is_blank(lines[k + 1]) {
                lines.take(k) + lines.skip(k + 2)
            } else {
                lines.take(k) + lines.skip(k + 1)
            },
        ),
{
    lemma_redact_skip_clean(lines, 0, k);
    assert(spec_redact(lines, k) == spec_emit(lines, k, k + 1, t));
    if k > 0 && is_blank(lines[k - 1]) && k + 1 < lines.len() && is_blank(lines[k + 1]) {
        lemma_redact_identity_from(lines, k + 2);
        assert(lines.subrange(0, k) + lines.skip(k + 2) =~= lines.take(k) + lines.skip(k + 2));
    } else {
        lemma_redact_identity_from(lines, k + 1);
        assert(lines.subrange(0, k) + lines.skip(k + 1) =~= lines.take(k) + lines.skip(k + 1));
    }
}

/// No line produced by splitting contains a line feed.
proof fn lemma_split_lines_no_nl(s: Seq<u8>)
    ensures
        forall|i: int, j: int|
            0 <= i < spec_split_lines(s).len() && 0 <= j < spec_split_lines(s)[i].len()
                ==> #[trigger] spec_split_lines(s)[i][j] != 10,
    decreases s.len(),
{
    if s.len() == 0 {
    } else {
        match spec_find(s, spec_nl_text(), 0) {
            None => {
                lemma_find_no_nl(s, 0);
            },
            Some(k) => {
                lemma_find_first_nl(s, 0, k);
                lemma_split_lines_no_nl(s.skip(k + 1));
                assert forall|i: int, j: int|
                    0 <= i < spec_split_lines(s).len() && 0 <= j < spec_split_lines(s)[i].len()
                    implies #[trigger] spec_split_lines(s)[i][j] != 10 by {
                    if i == 0 {
                        assert(spec_split_lines(s)[0] == spec_strip_cr(s.take(k)));
                        assert(s.take(k)[j] == s[j]);
                    } else {
                        assert(spec_split_lines(s)[i] == spec_split_lines(s.skip(k + 1))[i - 1]);
                    }
                }
            },
        }
    }
}

/// Before the first found occurrence of the line feed there is none.
proof fn lemma_find_first_nl(s: Seq<u8>, from: int, k: int)
    requires
        0 <= from,
        spec_find(s, spec_nl_text(), from) == Some(k),
    ensures
        from <= k < s.len(),
        s[k] == 10,
        forall|j: int| from <= j < k ==> s[j] != 10,
    decreases s.len() - from,
{
    if from + 1 > s.len() {
        assert(false);
    } else if s.subrange(from, from + 1) == spec_nl_text() {
        assert(k == from);
        assert(s.subrange(from, from + 1) =~= seq![s[from]]);
        assert(s[k] == seq![s[from]][0]);
    } else {
        assert(s.subrange(from, from + 1) =~= seq![s[from]]);
        assert(s[from] != 10) by {
            if s[from] == 10 {
                assert(seq![s[from]] =~= spec_nl_text());
            }
        }
        lemma_find_first_nl(s, from + 1, k);
    }
}

/// When no line feed is found there is none at all.
proof fn lemma_find_no_nl(s: Seq<u8>, from: int)
    requires
        0 <= from,
        spec_find(s, spec_nl_text(), from) is None,
    ensures
        forall|j: int| from <= j < s.len() ==> s[j] != 10,
    decreases s.len() - from,
{
    if from + 1 <= s.len() {
        assert(s.subrange(from, from + 1) =~= seq![s[from]]);
        lemma_find_no_nl(s, from + 1);
    }
}

/// The first line feed of a sequence that starts with a feed-free prefix
/// followed by a line feed sits right after that prefix.
proof fn lemma_find_nl_at(s: Seq<u8>, from: int, k: int)
    requires
        0 <= from <= k < s.len(),
        s[k] == 10,
        forall|j: int| from <= j < k ==> s[j] != 10,
    ensures
        spec_find(s, spec_nl_text(), from) == Some(k),
    decreases k - from,
{
    if from == k {
        assert(s.subrange(from, from + 1) =~= spec_nl_text());
    } else {
        assert(s.subrange(from, from + 1) =~= seq![s[from]]);
        assert(s.subrange(from, from + 1) != spec_nl_text()) by {
            if s.subrange(from, from + 1) == spec_nl_text() {
                assert(seq![s[from]][0] == 10);
            }
        }
        lemma_find_nl_at(s, from + 1, k);
    }
}

/// Splitting the joined text of feed-free lines that do not end in a
/// carriage return gives the lines back.
proof fn lemma_split_join_from(ls: Seq<Seq<u8>>, i: int)
    requires
        0 <= i <= ls.len(),
        forall|a: int, j: int|
            0 <= a < ls.len() && 0 <= j < ls[a].len() ==> #[trigger] ls[a][j] != 10,
        forall|a: int| 0 <= a < ls.len() ==> ((#[trigger] ls[a]).len() == 0 || ls[a].last() != 13),
    ensures
        spec_split_lines(spec_join_from(ls, i)) == ls.skip(i),
    decreases ls.len() - i,
{
    if i == ls.len() {
        assert(ls.skip(i) =~= Seq::<Seq<u8>>::empty());
    } else {
        let s = spec_join_from(ls, i);
        let k = ls[i].len() as int;
        assert(s == ls[i] + spec_nl_text() + spec_join_from(ls, i + 1));
        assert(s.len() > 0);
        assert(s[k] == 10);
        assert forall|j: int| 0 <= j < k implies s[j] != 10 by {
            assert(s[j] == ls[i][j]);
        }
        lemma_find_nl_at(s, 0, k);
        assert(s.take(k) =~= ls[i]);
        assert(spec_strip_cr(ls[i]) == ls[i]);
        assert(s.skip(k + 1) =~= spec_join_from(ls, i + 1));
        lemma_split_join_from(ls, i + 1);
        assert(seq![ls[i]] + ls.skip(i + 1) =~= ls.skip(i));
    }
}

/// Idempotence: on a file with no directives (and no line that ends in a
/// bare carriage return) redaction only normalizes line endings, and
/// redacting its own output changes nothing further.
pub proof fn lemma_redact_idempotent(src: Seq<u8>)
    requires
        forall|i: int|
            0 <= i < spec_split_lines(src).len() ==> spec_parse_token(
                #[trigger] spec_split_lines(src)[i],
            ) == Ok::<Option<Token>, ParseError>(None),
        forall|i: int|
            0 <= i < spec_split_lines(src).len() ==> ((#[trigger] spec_split_lines(src)[i]).len()
                == 0 || spec_split_lines(src)[i].last() != 13),
    ensures
        spec_process_source(src) == Ok::<Seq<u8>, RedactError>(spec_join(spec_split_lines(src))),
        spec_process_source(spec_join(spec_split_lines(src))) == Ok::<Seq<u8>, RedactError>(
            spec_join(spec_split_lines(src)),
        ),
{
    let ls = spec_split_lines(src);
    lemma_identity_no_directives(ls);
    lemma_split_lines_no_nl(src);
    lemma_split_join_from(ls, 0);
    assert(ls.skip(0) =~= ls);
    assert(spec_split_lines(spec_join(ls)) == ls);
    lemma_identity_no_directives(spec_split_lines(spec_join(ls)));
}

} // verus!
