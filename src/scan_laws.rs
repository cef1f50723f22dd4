use vstd::prelude::*;
use crate::scanner::{
    is_alpha_char, is_digit_char, run_end, scan, scan_from, scanned_tokens, step,
};
use crate::token::eof_view;
use crate::token_form::TokenForm;

verus! {

/// The source span `[start, end)` of each token that scanning from `pos` on
/// `line` produces, in order.
pub open spec fn scan_spans(src: Seq<char>, pos: int, line: int) -> Seq<(int, int)>
    decreases src.len() - pos,
{
    if pos < 0 || pos >= src.len() {
        Seq::empty()
    } else {
        let s = step(src, pos, line);
        if pos < s.end <= src.len() {
            let here = if s.token is Some {
                seq![(pos, s.end)]
            } else {
                Seq::empty()
            };
            here + scan_spans(src, s.end, s.line)
        } else {
            Seq::empty()
        }
    }
}

/// A token produced by one step spans exactly the input that the step consumed.
proof fn lemma_step_lexeme(src: Seq<char>, pos: int, line: int)
    requires
        0 <= pos < src.len(),
    ensures
        ({
            let s = step(src, pos, line);
            s.token is Some ==> s.token->0.lexeme == src.subrange(pos, s.end)
                && s.token->0.form != TokenForm::Eof
        }),
{
}

/// The spans of the tokens scanned from `pos` lie in order, without overlap,
/// at or after `pos`, and each token's lexeme is the text of its span.
proof fn lemma_spans_from(src: Seq<char>, pos: int, line: int)
    requires
        0 <= pos,
    ensures
        ({
            let toks = scan_from(src, pos, line).tokens;
            let sp = scan_spans(src, pos, line);
            &&& sp.len() == toks.len()
            &&& forall|i: int|
                0 <= i < sp.len() ==> pos <= #[trigger] sp[i].0 < sp[i].1 <= src.len()
                    && toks[i].lexeme == src.subrange(sp[i].0, sp[i].1)
                    && toks[i].form != TokenForm::Eof
            &&& forall|i: int, j: int| 0 <= i < j < sp.len() ==> #[trigger] sp[i].1 <= #[trigger] sp[j].0
        }),
    decreases src.len() - pos,
{
    if pos < src.len() {
        let s = step(src, pos, line);
        if pos < s.end <= src.len() {
            lemma_spans_from(src, s.end, s.line);
            lemma_step_lexeme(src, pos, line);
            let toks = scan_from(src, pos, line).tokens;
            let sp = scan_spans(src, pos, line);
            let rest_toks = scan_from(src, s.end, s.line).tokens;
            let rest_sp = scan_spans(src, s.end, s.line);
            if s.token is Some {
                assert forall|i: int| 1 <= i < sp.len() implies sp[i] == rest_sp[i - 1]
                    && toks[i] == rest_toks[i - 1] by {}
                assert(sp[0] == (pos, s.end));
                assert(toks[0] == s.token->0);
                assert forall|i: int, j: int| 0 <= i < j < sp.len() implies #[trigger] sp[i].1
                    <= #[trigger] sp[j].0 by {
                    assert(sp[j] == rest_sp[j - 1]);
                    if i > 0 {
                        assert(sp[i] == rest_sp[i - 1]);
                    }
                }
            } else {
                assert(sp =~= rest_sp);
                assert(toks =~= rest_toks);
            }
        }
    }
}

/// Every token of a text, the end-of-input marker aside, is the text of a
/// span of the source; the spans come in source order and do not overlap, so
/// the lexemes, joined in order, form a subsequence of the source.
pub proof fn lemma_lexemes_are_ordered_slices(src: Seq<char>)
    ensures
        ({
            let toks = scan(src).tokens;
            let sp = scan_spans(src, 0, 1);
            &&& sp.len() == toks.len()
            &&& forall|i: int|
                0 <= i < sp.len() ==> 0 <= #[trigger] sp[i].0 < sp[i].1 <= src.len()
                    && toks[i].lexeme == src.subrange(sp[i].0, sp[i].1)
            &&& forall|i: int, j: int| 0 <= i < j < sp.len() ==> #[trigger] sp[i].1 <= #[trigger] sp[j].0
        }),
{
    lemma_spans_from(src, 0, 1);
}

/// Scanning any text ends with exactly one end-of-input marker, at the line
/// reached, and no other token is one.
pub proof fn lemma_single_end_marker(src: Seq<char>)
    ensures
        scanned_tokens(src).len() >= 1,
        scanned_tokens(src).last() == eof_view(scan(src).line as nat),
        forall|i: int|
            0 <= i < scanned_tokens(src).len() - 1 ==> #[trigger] scanned_tokens(src)[i].form
                != TokenForm::Eof,
{
    lemma_spans_from(src, 0, 1);
    let toks = scan(src).tokens;
    assert forall|i: int| 0 <= i < scanned_tokens(src).len() - 1 implies #[trigger] scanned_tokens(
        src,
    )[i].form != TokenForm::Eof by {
        assert(scanned_tokens(src)[i] == toks[i]);
        assert(0 <= scan_spans(src, 0, 1)[i].0);
    }
}


/// A character that begins a token.
pub open spec fn begins_token(c: char) -> bool {
    c == '(' || c == ')' || c == '{' || c == '}' || c == ',' || c == '.' || c == '-' || c == '+'
        || c == ';' || c == '*' || c == '!' || c == '=' || c == '<' || c == '>' || c == '/' || c
        == '"' || is_digit_char(c) || is_alpha_char(c)
}

/// The text `[a, b)` carries no meaning: one blank character, one character
/// that begins no token, a line comment, or a string literal left open at the
/// end of input.
pub open spec fn is_discardable(src: Seq<char>, a: int, b: int) -> bool {
    ||| b == a + 1 && (src[a] == ' ' || src[a] == '\r' || src[a] == '\t' || src[a] == '\n')
    ||| b == a + 1 && !begins_token(src[a])
    ||| a + 2 <= b && src[a] == '/' && src[a + 1] == '/' && forall|k: int|
        a + 2 <= k < b ==> src[k] != '\n'
    ||| b == src.len() && src[a] == '"' && forall|k: int| a < k < b ==> src[k] != '"'
}

/// Position `k` lies in one of the spans `sp` or in one of the spans `sk`.
pub open spec fn is_covered(sp: Seq<(int, int)>, sk: Seq<(int, int)>, k: int) -> bool {
    ||| exists|i: int| 0 <= i < sp.len() && #[trigger] sp[i].0 <= k < sp[i].1
    ||| exists|j: int| 0 <= j < sk.len() && #[trigger] sk[j].0 <= k < sk[j].1
}

/// The source span `[start, end)` of each stretch of input that scanning from
/// `pos` on `line` consumes without producing a token, in order.
pub open spec fn skipped_spans(src: Seq<char>, pos: int, line: int) -> Seq<(int, int)>
    decreases src.len() - pos,
{
    if pos < 0 || pos >= src.len() {
        Seq::empty()
    } else {
        let s = step(src, pos, line);
        if pos < s.end <= src.len() {
            let here = if s.token is Some {
                Seq::empty()
            } else {
                seq![(pos, s.end)]
            };
            here + skipped_spans(src, s.end, s.line)
        } else {
            Seq::empty()
        }
    }
}

/// A run stops within the text, and every character it passes satisfies `keep`.
proof fn lemma_run_end(src: Seq<char>, i: int, keep: spec_fn(char) -> bool)
    requires
        0 <= i <= src.len(),
    ensures
        i <= run_end(src, i, keep) <= src.len(),
        forall|k: int| i <= k < run_end(src, i, keep) ==> keep(src[k]),
    decreases src.len() - i,
{
    if i < src.len() && keep(src[i]) {
        lemma_run_end(src, i + 1, keep);
    }
}

/// One step either produces a token or consumes discardable text, and it
/// always consumes something.
pub proof fn lemma_step_consumes(src: Seq<char>, pos: int, line: int)
    requires
        0 <= pos < src.len(),
    ensures
        ({
            let s = step(src, pos, line);
            &&& pos < s.end <= src.len()
            &&& s.token is None ==> is_discardable(src, pos, s.end)
        }),
{
    let c = src[pos];
    if c == '/' && pos + 1 < src.len() && src[pos + 1] == '/' {
        lemma_run_end(src, pos + 2, crate::scanner::comment_run());
    } else if c == '"' {
        lemma_run_end(src, pos + 1, crate::scanner::string_run());
    } else if is_digit_char(c) {
        lemma_run_end(src, pos + 1, crate::scanner::digit_run());
        let whole = run_end(src, pos + 1, crate::scanner::digit_run());
        if whole + 2 <= src.len() {
            lemma_run_end(src, whole + 2, crate::scanner::digit_run());
        }
    } else if is_alpha_char(c) {
        lemma_run_end(src, pos + 1, crate::scanner::word_run());
    }
}

/// From `pos` on, every skipped span is discardable, and every position lies
/// in a token's span or in a skipped span.
proof fn lemma_cover_from(src: Seq<char>, pos: int, line: int)
    requires
        0 <= pos,
    ensures
        ({
            let sp = scan_spans(src, pos, line);
            let sk = skipped_spans(src, pos, line);
            &&& forall|j: int|
                0 <= j < sk.len() ==> pos <= #[trigger] sk[j].0 && is_discardable(
                    src,
                    sk[j].0,
                    sk[j].1,
                )
            &&& forall|k: int|
                pos <= k < src.len() ==> #[trigger] is_covered(sp, sk, k)
        }),
    decreases src.len() - pos,
{
    if pos < src.len() {
        lemma_step_consumes(src, pos, line);
        let s = step(src, pos, line);
        lemma_cover_from(src, s.end, s.line);
        let sp = scan_spans(src, pos, line);
        let sk = skipped_spans(src, pos, line);
        let rest_sp = scan_spans(src, s.end, s.line);
        let rest_sk = skipped_spans(src, s.end, s.line);
        if s.token is Some {
            assert(sk =~= rest_sk);
            assert forall|k: int| pos <= k < src.len() implies is_covered(sp, sk, k) by {
                if k < s.end {
                    assert(sp[0] == (pos, s.end));
                    assert(sp[0].0 <= k < sp[0].1);
                } else {
                    assert(is_covered(rest_sp, rest_sk, k));
                    if exists|i: int| 0 <= i < rest_sp.len() && #[trigger] rest_sp[i].0 <= k
                        < rest_sp[i].1 {
                        let i = choose|i: int|
                            0 <= i < rest_sp.len() && #[trigger] rest_sp[i].0 <= k < rest_sp[i].1;
                        assert(sp[i + 1] == rest_sp[i]);
                        assert(sp[i + 1].0 <= k < sp[i + 1].1);
                    } else {
                        let j = choose|j: int|
                            0 <= j < rest_sk.len() && #[trigger] rest_sk[j].0 <= k < rest_sk[j].1;
                        assert(sk[j].0 <= k < sk[j].1);
                    }
                }
            }
        } else {
            assert(sp =~= rest_sp);
            assert(sk[0] == (pos, s.end));
            assert forall|j: int| 0 <= j < sk.len() implies pos <= #[trigger] sk[j].0
                && is_discardable(src, sk[j].0, sk[j].1) by {
                if j > 0 {
                    assert(sk[j] == rest_sk[j - 1]);
                }
            }
            assert forall|k: int| pos <= k < src.len() implies is_covered(sp, sk, k) by {
                if k < s.end {
                    assert(sk[0].0 <= k < sk[0].1);
                } else {
                    assert(is_covered(rest_sp, rest_sk, k));
                    if exists|j: int| 0 <= j < rest_sk.len() && #[trigger] rest_sk[j].0 <= k
                        < rest_sk[j].1 {
                        let j = choose|j: int|
                            0 <= j < rest_sk.len() && #[trigger] rest_sk[j].0 <= k < rest_sk[j].1;
                        assert(sk[j + 1] == rest_sk[j]);
                        assert(sk[j + 1].0 <= k < sk[j + 1].1);
                    } else {
                        let i = choose|i: int|
                            0 <= i < rest_sp.len() && #[trigger] rest_sp[i].0 <= k < rest_sp[i].1;
                        assert(sp[i].0 <= k < sp[i].1);
                    }
                }
            }
        }
    }
}

/// Whatever scanning a text consumes without producing a token carries no
/// meaning (blanks, comments, characters that begin no token, a string left
/// open at the end), and every character of the text lies either in a token's
/// lexeme or in such discarded text.
pub proof fn lemma_only_meaningless_text_is_dropped(src: Seq<char>)
    ensures
        ({
            let sp = scan_spans(src, 0, 1);
            let sk = skipped_spans(src, 0, 1);
            &&& forall|j: int| 0 <= j < sk.len() ==> is_discardable(src, #[trigger] sk[j].0, sk[j].1)
            &&& forall|k: int|
                0 <= k < src.len() ==> #[trigger] is_covered(sp, sk, k)
        }),
{
    lemma_cover_from(src, 0, 1);
}

} // verus!
