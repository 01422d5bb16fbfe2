//! The directive parser: recognizes and decodes one redaction directive from
//! a single line of text.
//!
//! A directive lives in a line comment: after a `//` marker and, strictly
//! after it, the control prefix `compose::`, one of the keywords `private`,
//! `begin_private` or `end_private` follows, optionally with a parenthesized
//! comma-separated property list drawn from `no_hint` and `unimplemented`.

use vstd::prelude::*;

use crate::bytes::{
    bytes_eq, bytes_starts_with, find_at, is_space, lemma_find_bounds, spec_find, spec_trim_end,
    starts_with, subvec, trimmed_len,
};

verus! {

broadcast use lemma_find_bounds;

/// What kind of region a directive opens, closes or stands for.
#[derive(Clone, Copy, Debug, PartialEq, Eq, Structural)]
pub enum TokenKind {
    Private,
    BeginPrivate,
    EndPrivate,
}

/// A decoded directive: its kind and its property flags.
#[derive(Clone, Copy, Debug, PartialEq, Eq, Structural)]
pub struct Token {
    pub kind: TokenKind,
    /// Emit no placeholder for the region.
    pub no_hint: bool,
    /// Add a placeholder statement that fails at run time.
    pub unimplemented: bool,
}

/// Why a line that carries the control prefix could not be decoded.
#[derive(Clone, Copy, Debug, PartialEq, Eq, Structural)]
pub enum ParseError {
    /// The text after the control prefix matches no keyword.
    UnknownCommand,
    /// A property list opens with `(` but the line does not end with `)`.
    UnclosedParen,
    /// A property token is neither `no_hint` nor `unimplemented`.
    UnknownProperty,
}

pub open spec fn spec_comment_text() -> Seq<u8> {
    seq![47u8, 47u8]
}

pub open spec fn spec_prefix_text() -> Seq<u8> {
    seq![99u8, 111u8, 109u8, 112u8, 111u8, 115u8, 101u8, 58u8, 58u8]
}

pub open spec fn spec_kw_private_text() -> Seq<u8> {
    seq![112u8, 114u8, 105u8, 118u8, 97u8, 116u8, 101u8]
}

pub open spec fn spec_kw_begin_text() -> Seq<u8> {
    seq![
        98u8, 101u8, 103u8, 105u8, 110u8, 95u8, 112u8, 114u8, 105u8, 118u8, 97u8, 116u8, 101u8,
    ]
}

pub open spec fn spec_kw_end_text() -> Seq<u8> {
    seq![101u8, 110u8, 100u8, 95u8, 112u8, 114u8, 105u8, 118u8, 97u8, 116u8, 101u8]
}

pub open spec fn spec_no_hint_text() -> Seq<u8> {
    seq![110u8, 111u8, 95u8, 104u8, 105u8, 110u8, 116u8]
}

pub open spec fn spec_unimplemented_text() -> Seq<u8> {
    seq![117u8, 110u8, 105u8, 109u8, 112u8, 108u8, 101u8, 109u8, 101u8, 110u8, 116u8, 101u8, 100u8]
}

pub open spec fn spec_comma_text() -> Seq<u8> {
    seq![44u8]
}

pub open spec fn spec_paren_open_text() -> Seq<u8> {
    seq![40u8]
}

/// `//`, the comment marker.
pub fn comment_text() -> (r: Vec<u8>)
    ensures
        r@ == spec_comment_text(),
{
    let mut v: Vec<u8> = Vec::new();
    v.push(47);
    v.push(47);
    proof {
        assert(v@ =~= spec_comment_text());
    }
    v
}

/// `compose::`, the control prefix.
pub fn prefix_text() -> (r: Vec<u8>)
    ensures
        r@ == spec_prefix_text(),
{
    let mut v: Vec<u8> = Vec::new();
    v.push(99);
    v.push(111);
    v.push(109);
    v.push(112);
    v.push(111);
    v.push(115);
    v.push(101);
    v.push(58);
    v.push(58);
    proof {
        assert(v@ =~= spec_prefix_text());
    }
    v
}

/// The keyword `private`.
pub fn kw_private_text() -> (r: Vec<u8>)
    ensures
        r@ == spec_kw_private_text(),
{
    let mut v: Vec<u8> = Vec::new();
    v.push(112);
    v.push(114);
    v.push(105);
    v.push(118);
    v.push(97);
    v.push(116);
    v.push(101);
    proof {
        assert(v@ =~= spec_kw_private_text());
    }
    v
}

/// The keyword `begin_private`.
pub fn kw_begin_text() -> (r: Vec<u8>)
    ensures
        r@ == spec_kw_begin_text(),
{
    let mut v: Vec<u8> = Vec::new();
    v.push(98);
    v.push(101);
    v.push(103);
    v.push(105);
    v.push(110);
    v.push(95);
    v.push(112);
    v.push(114);
    v.push(105);
    v.push(118);
    v.push(97);
    v.push(116);
    v.push(101);
    proof {
        assert(v@ =~= spec_kw_begin_text());
    }
    v
}

/// The keyword `end_private`.
pub fn kw_end_text() -> (r: Vec<u8>)
    ensures
        r@ == spec_kw_end_text(),
{
    let mut v: Vec<u8> = Vec::new();
    v.push(101);
    v.push(110);
    v.push(100);
    v.push(95);
    v.push(112);
    v.push(114);
    v.push(105);
    v.push(118);
    v.push(97);
    v.push(116);
    v.push(101);
    proof {
        assert(v@ =~= spec_kw_end_text());
    }
    v
}

/// The property keyword `no_hint`.
pub fn no_hint_text() -> (r: Vec<u8>)
    ensures
        r@ == spec_no_hint_text(),
{
    let mut v: Vec<u8> = Vec::new();
    v.push(110);
    v.push(111);
    v.push(95);
    v.push(104);
    v.push(105);
    v.push(110);
    v.push(116);
    proof {
        assert(v@ =~= spec_no_hint_text());
    }
    v
}

/// The property keyword `unimplemented`.
pub fn unimplemented_text() -> (r: Vec<u8>)
    ensures
        r@ == spec_unimplemented_text(),
{
    let mut v: Vec<u8> = Vec::new();
    v.push(117);
    v.push(110);
    v.push(105);
    v.push(109);
    v.push(112);
    v.push(108);
    v.push(101);
    v.push(109);
    v.push(101);
    v.push(110);
    v.push(116);
    v.push(101);
    v.push(100);
    proof {
        assert(v@ =~= spec_unimplemented_text());
    }
    v
}

fn comma_text() -> (r: Vec<u8>)
    ensures
        r@ == spec_comma_text(),
{
    let mut v: Vec<u8> = Vec::new();
    v.push(44);
    proof {
        assert(v@ =~= spec_comma_text());
    }
    v
}

fn paren_open_text() -> (r: Vec<u8>)
    ensures
        r@ == spec_paren_open_text(),
{
    let mut v: Vec<u8> = Vec::new();
    v.push(40);
    proof {
        assert(v@ =~= spec_paren_open_text());
    }
    v
}

/// One property token: exactly `no_hint` or `unimplemented`, as
/// (no_hint, unimplemented) flags.
pub open spec fn spec_prop_one(s: Seq<u8>) -> Result<(bool, bool), ParseError> {
    if s == spec_no_hint_text() {
        Ok((true, false))
    } else if s == spec_unimplemented_text() {
        Ok((false, true))
    } else {
        Err(ParseError::UnknownProperty)
    }
}

/// A non-empty property list, split on commas; every token must be a known
/// property keyword.
pub open spec fn spec_parse_prop_list(s: Seq<u8>) -> Result<(bool, bool), ParseError>
    decreases s.len(),
{
    match spec_find(s, spec_comma_text(), 0) {
        None => spec_prop_one(s),
        Some(i) => match spec_prop_one(s.take(i)) {
            Err(e) => Err(e),
            Ok((a, b)) => match spec_parse_prop_list(s.skip(i + 1)) {
                Err(e) => Err(e),
                Ok((c, d)) => Ok((a || c, b || d)),
            },
        },
    }
}

/// The interior of the parentheses: empty means no properties.
pub open spec fn spec_parse_props(s: Seq<u8>) -> Result<(bool, bool), ParseError> {
    if s.len() == 0 {
        Ok((false, false))
    } else {
        spec_parse_prop_list(s)
    }
}

/// Which keyword the text after the control prefix begins with.
pub open spec fn spec_kind_of(cmd: Seq<u8>) -> Option<TokenKind> {
    if starts_with(cmd, spec_kw_private_text()) {
        Some(TokenKind::Private)
    } else if starts_with(cmd, spec_kw_begin_text()) {
        Some(TokenKind::BeginPrivate)
    } else if starts_with(cmd, spec_kw_end_text()) {
        Some(TokenKind::EndPrivate)
    } else {
        None
    }
}

/// Decode the text that follows the control prefix: a keyword, then an
/// optional parenthesized property list that must close the trimmed line.
pub open spec fn spec_parse_cmd(cmd: Seq<u8>) -> Result<Option<Token>, ParseError> {
    match spec_kind_of(cmd) {
        None => Err(ParseError::UnknownCommand),
        Some(kind) => match spec_find(cmd, spec_paren_open_text(), 0) {
            None => Ok(Some(Token { kind, no_hint: false, unimplemented: false })),
            Some(q) => {
                let t = spec_trim_end(cmd);
                if t.len() > 0 && t.last() == 41 {
                    match spec_parse_props(cmd.subrange(q + 1, t.len() - 1)) {
                        Ok((nh, ui)) => Ok(
                            Some(Token { kind, no_hint: nh, unimplemented: ui }),
                        ),
                        Err(e) => Err(e),
                    }
                } else {
                    Err(ParseError::UnclosedParen)
                }
            },
        },
    }
}

/// Decode one line: no comment marker or no control prefix means no
/// directive; a control prefix followed by unrecognized text is an error.
pub open spec fn spec_parse_token(line: Seq<u8>) -> Result<Option<Token>, ParseError> {
    match spec_find(line, spec_comment_text(), 0) {
        None => Ok(None),
        Some(c) => {
            let comment = line.skip(c);
            match spec_find(comment, spec_prefix_text(), 0) {
                None => Ok(None),
                Some(p) => spec_parse_cmd(comment.skip(p + spec_prefix_text().len())),
            }
        },
    }
}

fn prop_one(s: &Vec<u8>) -> (r: Result<(bool, bool), ParseError>)
    ensures
        r == spec_prop_one(s@),
{
    if bytes_eq(s, &no_hint_text()) {
        Ok((true, false))
    } else if bytes_eq(s, &unimplemented_text()) {
        Ok((false, true))
    } else {
        Err(ParseError::UnknownProperty)
    }
}

fn parse_prop_list(s: &Vec<u8>) -> (r: Result<(bool, bool), ParseError>)
    ensures
        r == spec_parse_prop_list(s@),
    decreases s@.len(),
{
    let comma = comma_text();
    match find_at(s, &comma, 0) {
        None => prop_one(s),
        Some(i) => {
            let head = subvec(s, 0, i);
            match prop_one(&head) {
                Err(e) => Err(e),
                Ok((a, b)) => {
                    proof {
                        assert(spec_comma_text().len() == 1);
                        assert(i + 1 <= s@.len());
                    }
                    let rest = subvec(s, i + 1, s.len());
                    match parse_prop_list(&rest) {
                        Err(e) => Err(e),
                        Ok((c, d)) => Ok((a || c, b || d)),
                    }
                },
            }
        },
    }
}

fn parse_props(s: &Vec<u8>) -> (r: Result<(bool, bool), ParseError>)
    ensures
        r == spec_parse_props(s@),
{
    if s.len() == 0 {
        Ok((false, false))
    } else {
        parse_prop_list(s)
    }
}

fn parse_cmd(cmd: &Vec<u8>) -> (r: Result<Option<Token>, ParseError>)
    ensures
        r == spec_parse_cmd(cmd@),
{
    let kind = if bytes_starts_with(cmd, &kw_private_text()) {
        TokenKind::Private
    } else if bytes_starts_with(cmd, &kw_begin_text()) {
        TokenKind::BeginPrivate
    } else if bytes_starts_with(cmd, &kw_end_text()) {
        TokenKind::EndPrivate
    } else {
        return Err(ParseError::UnknownCommand);
    };
    match find_at(cmd, &paren_open_text(), 0) {
        None => Ok(Some(Token { kind, no_hint: false, unimplemented: false })),
        Some(q) => {
            let t = trimmed_len(cmd);
            if t > 0 && cmd[t - 1] == 41 {
                proof {
                    crate::bytes::lemma_trim_end_props(cmd@);
                    assert(spec_trim_end(cmd@).last() == cmd@[t - 1]);
                    // the opening parenthesis is not whitespace, so it lies
                    // before the trimmed end, and it differs from `)`
                    assert(cmd@.subrange(q as int, q + 1)[0] == cmd@[q as int]);
                    assert(!is_space(cmd@[q as int]));
                    assert(q + 1 <= t - 1);
                }
                let interior = subvec(cmd, q + 1, t - 1);
                match parse_props(&interior) {
                    Ok((nh, ui)) => Ok(Some(Token { kind, no_hint: nh, unimplemented: ui })),
                    Err(e) => Err(e),
                }
            } else {
                proof {
                    crate::bytes::lemma_trim_end_props(cmd@);
                    if spec_trim_end(cmd@).len() > 0 {
                        assert(spec_trim_end(cmd@).last() == cmd@[t - 1]);
                    }
                }
                Err(ParseError::UnclosedParen)
            }
        },
    }
}

/// Decode one line of text: `Ok(None)` when the line holds no directive,
/// `Ok(Some(token))` for a decoded directive, an error for a malformed one.
pub fn parse_token(line: &Vec<u8>) -> (r: Result<Option<Token>, ParseError>)
    ensures
        r == spec_parse_token(line@),
{
    let comment_pat = comment_text();
    let c = match find_at(line, &comment_pat, 0) {
        None => {
            return Ok(None);
        },
        Some(c) => c,
    };
    let comment = subvec(line, c, line.len());
    let prefix_pat = prefix_text();
    let p = match find_at(&comment, &prefix_pat, 0) {
        None => {
            return Ok(None);
        },
        Some(p) => p,
    };
    let cmd = subvec(&comment, p + prefix_pat.len(), comment.len());
    parse_cmd(&cmd)
}

} // verus!
