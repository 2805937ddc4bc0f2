//! Scanning is stable: the tokens of a program, written one after the
//! other, are scanned as the same tokens again.

use crate::scanner::{
    alpha, alphanumeric, digit, end_token, lemma_scan_one_advances, lemma_skip_bounds,
    line_after, next_line, number_end, scan, scan_from, scan_one, skip, Lexed,
};
use crate::token::TokenV;
use vstd::prelude::*;

verus! {

/// The texts of the tokens in a row, a blank after each.
pub open spec fn joined(tokens: Seq<TokenV>) -> Seq<char>
    decreases tokens.len(),
{
    if tokens.len() == 0 {
        Seq::empty()
    } else {
        tokens[0].lexeme + seq![' '] + joined(tokens.drop_first())
    }
}

/// A token without its line.
pub open spec fn unlined(t: TokenV) -> TokenV {
    TokenV { line: 0, ..t }
}

/// The tokens without their lines.
pub open spec fn all_unlined(tokens: Seq<TokenV>) -> Seq<TokenV> {
    Seq::new(tokens.len(), |i: int| unlined(tokens[i]))
}

/// Skipping stops at the first character that is not kept.
pub proof fn lemma_skip_exact(text: Seq<char>, from: int, to: int, keep: spec_fn(char) -> bool)
    requires
        0 <= from <= to <= text.len(),
        forall|i: int| from <= i < to ==> keep(#[trigger] text[i]),
        to == text.len() || !keep(text[to]),
    ensures
        skip(text, from, keep) == to,
    decreases to - from,
{
    if from < to {
        lemma_skip_exact(text, from + 1, to, keep);
    }
}

/// Skipping does not look at what stands before the place it starts from.
pub proof fn lemma_skip_shift(pre: Seq<char>, text: Seq<char>, pos: int, keep: spec_fn(char) -> bool)
    requires
        0 <= pos,
    ensures
        skip(pre + text, pre.len() + pos, keep) == pre.len() + skip(text, pos, keep),
    decreases text.len() - pos,
{
    if pos < text.len() {
        assert((pre + text)[pre.len() + pos] == text[pos]);
        if keep(text[pos]) {
            lemma_skip_shift(pre, text, pos + 1, keep);
        }
    }
}

/// Nor does the counting of lines.
pub proof fn lemma_line_shift(pre: Seq<char>, text: Seq<char>, from: int, to: int, line: int)
    requires
        0 <= from,
        to <= text.len(),
    ensures
        line_after(pre + text, pre.len() + from, pre.len() + to, line) == line_after(
            text,
            from,
            to,
            line,
        ),
    decreases to - from,
{
    if from < to {
        assert((pre + text)[pre.len() + from] == text[from]);
        let next = if text[from] == '\n' {
            next_line(line)
        } else {
            line
        };
        lemma_line_shift(pre, text, from + 1, to, next);
    }
}

/// What is found at a place does not depend on what stands before it.
pub proof fn lemma_scan_one_shift(
    read: spec_fn(Seq<char>) -> u64,
    pre: Seq<char>,
    text: Seq<char>,
    pos: int,
    line: int,
)
    requires
        0 <= pos < text.len(),
    ensures
        scan_one(read, pre + text, pre.len() + pos, line) == (Lexed {
            next: pre.len() + scan_one(read, text, pos, line).next,
            ..scan_one(read, text, pos, line)
        }),
{
    let n = pre.len() as int;
    let all = pre + text;
    let found = scan_one(read, text, pos, line);
    assert(all[n + pos] == text[pos]);
    assert(all.len() == n + text.len());
    if pos + 1 < text.len() {
        assert(all[n + pos + 1] == text[pos + 1]);
    }
    lemma_scan_one_advances(read, text, pos, line);
    assert(all.subrange(n + pos, n + found.next) =~= text.subrange(pos, found.next));
    assert(all.subrange(n + pos, n + pos + 1) =~= text.subrange(pos, pos + 1));
    if pos + 2 <= text.len() {
        assert(all.subrange(n + pos, n + pos + 2) =~= text.subrange(pos, pos + 2));
    }
    lemma_skip_shift(pre, text, pos + 2, |x: char| x != '\n');
    lemma_skip_shift(pre, text, pos + 1, |x: char| x != '"');
    lemma_skip_shift(pre, text, pos, |x: char| alphanumeric(x));
    lemma_skip_shift(pre, text, pos, |c: char| digit(c));
    let whole = skip(text, pos, |c: char| digit(c));
    lemma_skip_bounds(text, pos, |c: char| digit(c));
    lemma_skip_shift(pre, text, whole + 1, |c: char| digit(c));
    if whole + 1 < text.len() {
        assert(all[n + whole] == text[whole]);
        assert(all[n + whole + 1] == text[whole + 1]);
    }
    assert(number_end(all, n + pos) == n + number_end(text, pos));
    let close = skip(text, pos + 1, |x: char| x != '"');
    lemma_skip_bounds(text, pos + 1, |x: char| x != '"');
    lemma_line_shift(pre, text, pos + 1, close, line);
    if close < text.len() {
        assert(all.subrange(n + pos, n + close + 1) =~= text.subrange(pos, close + 1));
        assert(all.subrange(n + pos + 1, n + close) =~= text.subrange(pos + 1, close));
    }
}

/// The tokens and errors from a place on do not depend on what stands
/// before it.
pub proof fn lemma_scan_from_shift(
    read: spec_fn(Seq<char>) -> u64,
    pre: Seq<char>,
    text: Seq<char>,
    pos: int,
    line: int,
)
    requires
        0 <= pos,
    ensures
        scan_from(read, pre + text, pre.len() + pos, line) == scan_from(read, text, pos, line),
    decreases text.len() - pos,
{
    if pos < text.len() {
        let found = scan_one(read, text, pos, line);
        lemma_scan_one_shift(read, pre, text, pos, line);
        lemma_scan_one_advances(read, text, pos, line);
        lemma_scan_from_shift(read, pre, text, found.next, found.line);
    }
}

/// A token is scanned again from its own text with a blank after it,
/// whatever follows the blank and on whatever line.
pub proof fn lemma_token_alone(
    read: spec_fn(Seq<char>) -> u64,
    src: Seq<char>,
    pos: int,
    line: int,
    rest: Seq<char>,
    other: int,
)
    requires
        0 <= pos < src.len(),
        scan_one(read, src, pos, line).token is Some,
        scan_one(read, src, pos, line).error is None,
    ensures
        ({
            let t = scan_one(read, src, pos, line).token->0;
            let again = scan_one(read, t.lexeme + seq![' '] + rest, 0, other);
            &&& again.next == t.lexeme.len()
            &&& again.error is None
            &&& again.token matches Some(t2) && unlined(t2) == unlined(t)
        }),
{
    let found = scan_one(read, src, pos, line);
    let t = found.token->0;
    let lex = t.lexeme;
    let text = lex + seq![' '] + rest;
    let c = src[pos];
    lemma_scan_one_advances(read, src, pos, line);
    let e = found.next - pos;
    // the text of a token is the part of the program it was read from
    lemma_skip_bounds(src, pos + 1, |x: char| x != '"');
    lemma_skip_bounds(src, pos, |x: char| alphanumeric(x));
    let whole = skip(src, pos, |c: char| digit(c));
    lemma_skip_bounds(src, pos, |c: char| digit(c));
    lemma_skip_bounds(src, whole + 1, |c: char| digit(c));
    assert(lex == src.subrange(pos, found.next));
    assert(lex.len() == e);
    assert(text.len() == e + 1 + rest.len());
    assert(text[e] == ' ');
    assert forall|i: int| 0 <= i < e implies #[trigger] text[i] == src[pos + i] by {
        assert(lex[i] == src[pos + i]);
    }
    assert(text[0] == c);
    assert(text.subrange(0, e) =~= lex);
    if c == '"' {
        let close = skip(src, pos + 1, |x: char| x != '"');
        assert(close < src.len());
        assert(e == close + 1 - pos);
        assert forall|i: int| 1 <= i < e - 1 implies (|x: char| x != '"')(#[trigger] text[i]) by {
            assert(text[i] == src[pos + i]);
        }
        assert(text[e - 1] == src[close]);
        lemma_skip_exact(text, 1, e - 1, |x: char| x != '"');
        assert(text.subrange(1, e - 1) =~= src.subrange(pos + 1, close));
    } else if digit(c) {
        let dot = whole - pos;
        assert forall|i: int| 0 <= i < dot implies (|c: char| digit(c))(#[trigger] text[i]) by {
            assert(text[i] == src[pos + i]);
        }
        if whole + 1 < src.len() && src[whole] == '.' && digit(src[whole + 1]) {
            assert(text[dot] == src[whole]);
            assert(text[dot + 1] == src[whole + 1]);
            lemma_skip_exact(text, 0, dot, |c: char| digit(c));
            assert forall|i: int| dot + 1 <= i < e implies (|c: char| digit(c))(
                #[trigger] text[i],
            ) by {
                assert(text[i] == src[pos + i]);
            }
            lemma_skip_exact(text, dot + 1, e, |c: char| digit(c));
        } else {
            assert(dot == e);
            lemma_skip_exact(text, 0, e, |c: char| digit(c));
        }
        assert(number_end(text, 0) == e);
    } else if alpha(c) {
        assert forall|i: int| 0 <= i < e implies (|x: char| alphanumeric(x))(
            #[trigger] text[i],
        ) by {
            assert(text[i] == src[pos + i]);
        }
        lemma_skip_exact(text, 0, e, |x: char| alphanumeric(x));
    } else {
        if e == 2 {
            assert(text[1] == src[pos + 1]);
            assert(text.subrange(0, 2) =~= lex);
        } else {
            assert(text.subrange(0, 1) =~= lex);
        }
    }
}

/// The tokens from a place on, scanned again from their joined texts, are
/// the same tokens but for their lines.
pub proof fn lemma_rescan_from(
    read: spec_fn(Seq<char>) -> u64,
    src: Seq<char>,
    pos: int,
    line: int,
    other: int,
)
    requires
        0 <= pos,
        scan_from(read, src, pos, line).1.len() == 0,
    ensures
        ({
            let first = scan_from(read, src, pos, line).0;
            let again = scan_from(read, joined(first), 0, other);
            &&& again.1.len() == 0
            &&& all_unlined(again.0) == all_unlined(first)
        }),
    decreases src.len() - pos,
{
    let first = scan_from(read, src, pos, line).0;
    if pos >= src.len() {
        let blank = seq![' '];
        assert(first.drop_first() =~= Seq::<TokenV>::empty());
        assert(joined(first.drop_first()) =~= Seq::<char>::empty());
        assert(joined(first) =~= blank);
        let one = scan_one(read, blank, 0, other);
        assert(one.next == 1 && one.token is None && one.error is None);
        assert(scan_from(read, blank, 1, other).0 =~= seq![
            end_token(other),
        ]);
        assert(scan_from(read, blank, 0, other) == scan_from(read, blank, 1, other));
        assert(all_unlined(scan_from(read, blank, 0, other).0) =~= all_unlined(first));
    } else {
        let found = scan_one(read, src, pos, line);
        lemma_scan_one_advances(read, src, pos, line);
        let later = scan_from(read, src, found.next, found.line);
        assert(found.error is None);
        assert(later.1.len() == 0);
        match found.token {
            None => {
                assert(first == later.0);
                lemma_rescan_from(read, src, found.next, found.line, other);
            },
            Some(t) => {
                assert(first =~= seq![t] + later.0);
                assert(first.drop_first() =~= later.0);
                let tail = joined(later.0);
                let head = t.lexeme + seq![' '];
                let text = head + tail;
                assert(joined(first) =~= text);
                lemma_token_alone(read, src, pos, line, tail, other);
                let one = scan_one(read, text, 0, other);
                let n = t.lexeme.len() as int;
                assert(one.next == n);
                assert(text[n] == ' ');
                let two = scan_one(read, text, n, one.line);
                assert(two.next == n + 1 && two.token is None && two.error is None && two.line
                    == one.line);
                lemma_scan_from_shift(read, head, tail, 0, one.line);
                assert(head.len() == n + 1);
                lemma_rescan_from(read, src, found.next, found.line, one.line);
                let rest = scan_from(read, tail, 0, one.line);
                assert(scan_from(read, text, n + 1, one.line) == rest);
                assert(scan_from(read, text, n, one.line) == rest);
                let again = scan_from(read, text, 0, other);
                assert(again.0 =~= seq![one.token->0] + rest.0);
                assert(again.1 =~= rest.1);
                assert(all_unlined(rest.0).len() == all_unlined(later.0).len());
                assert forall|i: int| 0 <= i < first.len() implies unlined(again.0[i]) == unlined(
                    first[i],
                ) by {
                    if i > 0 {
                        assert(all_unlined(rest.0)[i - 1] == all_unlined(later.0)[i - 1]);
                    }
                }
                assert(all_unlined(again.0) =~= all_unlined(first));
            },
        }
    }
}

/// Scanning is stable. Where a program is scanned without an error, the
/// texts of its tokens, written one after the other with a blank after
/// each, are scanned without an error too, and as the same tokens: the same
/// kinds, texts and literal values in the same order. Only the lines may
/// differ.
pub proof fn law_rescan(read: spec_fn(Seq<char>) -> u64, src: Seq<char>)
    requires
        scan(read, src).1.len() == 0,
    ensures
        scan(read, joined(scan(read, src).0)).1.len() == 0,
        all_unlined(scan(read, joined(scan(read, src).0)).0) == all_unlined(scan(read, src).0),
{
    lemma_rescan_from(read, src, 0, 1, 1);
}

} // verus!
