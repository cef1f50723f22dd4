use vstd::prelude::*;
use crate::lox::{plain_diagnostic, DiagnosticView, Lox};
use crate::token::{eof_view, literal_view, tokens_view, Literal, LiteralView, Token, TokenView};
use crate::token_form::{word_form, TokenForm};

verus! {

/// A decimal digit.
pub open spec fn is_digit_char(c: char) -> bool {
    '0' <= c && c <= '9'
}

/// A character that may begin an identifier: an ASCII letter or `_`.
pub open spec fn is_alpha_char(c: char) -> bool {
    ('a' <= c && c <= 'z') || ('A' <= c && c <= 'Z') || c == '_'
}

/// A character that may continue an identifier.
pub open spec fn is_alphanumeric_char(c: char) -> bool {
    is_digit_char(c) || is_alpha_char(c)
}

/// The characters that continue a number's digit run.
pub open spec fn digit_run() -> spec_fn(char) -> bool {
    |c: char| is_digit_char(c)
}

/// The characters that continue an identifier.
pub open spec fn word_run() -> spec_fn(char) -> bool {
    |c: char| is_alphanumeric_char(c)
}

/// The characters that a line comment runs over.
pub open spec fn comment_run() -> spec_fn(char) -> bool {
    |c: char| c != '\n'
}

/// The characters that a string literal runs over.
pub open spec fn string_run() -> spec_fn(char) -> bool {
    |c: char| c != '"'
}

/// The character at `i`, or the null character outside the text.
pub open spec fn peek_at(src: Seq<char>, i: int) -> char {
    if 0 <= i < src.len() {
        src[i]
    } else {
        '\0'
    }
}

/// The first position at or after `i` whose character does not satisfy `keep`,
/// or the end of the text.
pub open spec fn run_end(src: Seq<char>, i: int, keep: spec_fn(char) -> bool) -> int
    decreases src.len() - i,
{
    if i < 0 || i >= src.len() || !keep(src[i]) {
        i
    } else {
        run_end(src, i + 1, keep)
    }
}

/// The number of newline characters in `s`.
pub open spec fn count_newlines(s: Seq<char>) -> nat
    decreases s.len(),
{
    if s.len() == 0 {
        0
    } else {
        count_newlines(s.drop_last()) + if s.last() == '\n' {
            1nat
        } else {
            0nat
        }
    }
}

/// The message reported for a character that begins no token.
pub open spec fn unexpected_message() -> Seq<char> {
    "Unexpected character"@
}

/// The message reported for a string literal that input ends inside.
pub open spec fn unterminated_message() -> Seq<char> {
    "Unterminated string"@
}

/// What scanning one lexeme does: where the cursor goes, the line reached,
/// and the token or diagnostic produced, if any.
pub struct Step {
    pub end: int,
    pub line: int,
    pub token: Option<TokenView>,
    pub diagnostic: Option<DiagnosticView>,
}

/// A step that emits the token spanning `[start, end)`.
pub open spec fn emit(
    src: Seq<char>,
    start: int,
    end: int,
    line: int,
    form: TokenForm,
    literal: Option<LiteralView>,
) -> Step {
    Step {
        end,
        line,
        token: Some(
            TokenView { form, lexeme: src.subrange(start, end), literal, line: line as nat },
        ),
        diagnostic: None,
    }
}

/// A step that discards input up to `end`.
pub open spec fn skip(end: int, line: int) -> Step {
    Step { end, line, token: None, diagnostic: None }
}

/// A step that discards input up to `end` and reports `message`.
pub open spec fn flag(end: int, line: int, message: Seq<char>) -> Step {
    Step { end, line, token: None, diagnostic: Some(plain_diagnostic(line as nat, message)) }
}

/// An operator that takes the two-character form when `=` follows.
pub open spec fn one_or_two(
    src: Seq<char>,
    start: int,
    line: int,
    one: TokenForm,
    two: TokenForm,
) -> Step {
    if peek_at(src, start + 1) == '=' {
        emit(src, start, start + 2, line, two, None)
    } else {
        emit(src, start, start + 1, line, one, None)
    }
}

/// A string literal opened by the quote at `start`.
pub open spec fn string_step(src: Seq<char>, start: int, line: int) -> Step {
    let close = run_end(src, start + 1, string_run());
    let reached = line + count_newlines(src.subrange(start + 1, close));
    if close >= src.len() {
        flag(src.len() as int, reached, unterminated_message())
    } else {
        Step {
            end: close + 1,
            line: reached,
            token: Some(
                TokenView {
                    form: TokenForm::String,
                    lexeme: src.subrange(start, close + 1),
                    literal: Some(LiteralView::Str(src.subrange(start + 1, close))),
                    line: line as nat,
                },
            ),
            diagnostic: None,
        }
    }
}

/// Where a number literal starting at `start` ends: a run of digits, then a
/// fraction only where a digit follows the dot.
pub open spec fn number_end(src: Seq<char>, start: int) -> int {
    let whole = run_end(src, start + 1, digit_run());
    if peek_at(src, whole) == '.' && is_digit_char(peek_at(src, whole + 1)) {
        run_end(src, whole + 2, digit_run())
    } else {
        whole
    }
}

/// Where an identifier starting at `start` ends.
pub open spec fn word_end(src: Seq<char>, start: int) -> int {
    run_end(src, start + 1, word_run())
}

/// Scanning the lexeme that begins at `start` (inside the text) on `line`.
pub open spec fn step(src: Seq<char>, start: int, line: int) -> Step {
    let c = src[start];
    let next = start + 1;
    if c == '(' {
        emit(src, start, next, line, TokenForm::LeftParen, None)
    } else if c == ')' {
        emit(src, start, next, line, TokenForm::RightParen, None)
    } else if c == '{' {
        emit(src, start, next, line, TokenForm::LeftBrace, None)
    } else if c == '}' {
        emit(src, start, next, line, TokenForm::RightBrace, None)
    } else if c == ',' {
        emit(src, start, next, line, TokenForm::Comma, None)
    } else if c == '.' {
        emit(src, start, next, line, TokenForm::Dot, None)
    } else if c == '-' {
        emit(src, start, next, line, TokenForm::Minus, None)
    } else if c == '+' {
        emit(src, start, next, line, TokenForm::Plus, None)
    } else if c == ';' {
        emit(src, start, next, line, TokenForm::Semicolon, None)
    } else if c == '*' {
        emit(src, start, next, line, TokenForm::Star, None)
    } else if c == '!' {
        one_or_two(src, start, line, TokenForm::Bang, TokenForm::BangEqual)
    } else if c == '=' {
        one_or_two(src, start, line, TokenForm::Equal, TokenForm::EqualEqual)
    } else if c == '<' {
        one_or_two(src, start, line, TokenForm::Less, TokenForm::LessEqual)
    } else if c == '>' {
        one_or_two(src, start, line, TokenForm::Greater, TokenForm::GreaterEqual)
    } else if c == '/' {
        if peek_at(src, next) == '/' {
            skip(run_end(src, next + 1, comment_run()), line)
        } else {
            emit(src, start, next, line, TokenForm::Slash, None)
        }
    } else if c == ' ' || c == '\r' || c == '\t' {
        skip(next, line)
    } else if c == '\n' {
        skip(next, line + 1)
    } else if c == '"' {
        string_step(src, start, line)
    } else if is_digit_char(c) {
        let end = number_end(src, start);
        emit(
            src,
            start,
            end,
            line,
            TokenForm::Number,
            Some(LiteralView::Number(src.subrange(start, end))),
        )
    } else if is_alpha_char(c) {
        let end = word_end(src, start);
        emit(src, start, end, line, word_form(src.subrange(start, end)), None)
    } else {
        flag(next, line, unexpected_message())
    }
}

/// The sequence holding `o`'s value, if any.
pub open spec fn opt_seq<A>(o: Option<A>) -> Seq<A> {
    match o {
        Some(a) => seq![a],
        None => Seq::empty(),
    }
}

/// The outcome of scanning to the end of input.
pub struct Scan {
    pub tokens: Seq<TokenView>,
    pub diagnostics: Seq<DiagnosticView>,
    pub line: int,
}

/// Scanning from position `pos` on `line` to the end of the text: the tokens
/// and diagnostics in source order and the line reached. (Each step moves
/// forward within the text, as `scan_laws` proves; the bound on `s.end` only
/// makes the recursion's termination evident.)
pub open spec fn scan_from(src: Seq<char>, pos: int, line: int) -> Scan
    decreases src.len() - pos,
{
    if pos < 0 || pos >= src.len() {
        Scan { tokens: Seq::empty(), diagnostics: Seq::empty(), line }
    } else {
        let s = step(src, pos, line);
        if pos < s.end <= src.len() {
            let rest = scan_from(src, s.end, s.line);
            Scan {
                tokens: opt_seq(s.token) + rest.tokens,
                diagnostics: opt_seq(s.diagnostic) + rest.diagnostics,
                line: rest.line,
            }
        } else {
            Scan { tokens: Seq::empty(), diagnostics: Seq::empty(), line }
        }
    }
}

/// Scanning a whole text from its first line.
pub open spec fn scan(src: Seq<char>) -> Scan {
    scan_from(src, 0, 1)
}

/// The tokens of a whole text, closed by the end-of-input marker.
pub open spec fn scanned_tokens(src: Seq<char>) -> Seq<TokenView> {
    scan(src).tokens.push(eof_view(scan(src).line as nat))
}


/// A cursor over one source text that turns it into tokens, left to right.
pub struct Scanner {
    source: String,
    chars: Vec<char>,
    start: usize,
    current: usize,
    line: usize,
    tokens: Vec<Token>,
}

impl Scanner {
    /// The source text, as characters.
    pub closed spec fn text(&self) -> Seq<char> {
        self.chars@
    }

    /// The next unread position.
    pub closed spec fn position(&self) -> int {
        self.current as int
    }

    /// The line the cursor is on.
    pub closed spec fn at_line(&self) -> int {
        self.line as int
    }

    /// The tokens produced so far.
    pub closed spec fn emitted(&self) -> Seq<TokenView> {
        tokens_view(self.tokens@)
    }

    /// The cursor lies within the text and the line count is in step with it.
    pub closed spec fn wf(&self) -> bool {
        &&& self.chars@ == self.source@
        &&& self.chars@.len() < usize::MAX
        &&& self.start <= self.current <= self.chars@.len()
        &&& 1 <= self.line <= self.current + 1
    }

    /// `self` differs from `other` at most in its cursor and line.
    spec fn keeps_text(&self, other: &Self) -> bool {
        &&& self.source == other.source
        &&& self.chars == other.chars
        &&& self.start == other.start
        &&& self.tokens == other.tokens
    }

    /// A scanner at the start of `source`, on line one, with nothing produced.
    pub fn new(source: String) -> (r: Self)
        requires
            source@.len() < usize::MAX,
        ensures
            r.wf(),
            r.text() == source@,
            r.position() == 0,
            r.at_line() == 1,
            r.emitted() == Seq::<TokenView>::empty(),
    {
        let n = source.as_str().unicode_len();
        let mut chars: Vec<char> = Vec::new();
        let mut i: usize = 0;
        while i < n
            invariant
                n == source@.len(),
                i <= n,
                chars@ == source@.subrange(0, i as int),
            decreases n - i,
        {
            let c = source.as_str().get_char(i);
            chars.push(c);
            i += 1;
            proof {
                assert(chars@ =~= source@.subrange(0, i as int));
            }
        }
        proof {
            assert(chars@ =~= source@);
        }
        let tokens: Vec<Token> = Vec::new();
        proof {
            assert(tokens_view(tokens@) =~= Seq::<TokenView>::empty());
        }
        Scanner { source, chars, start: 0, current: 0, line: 1, tokens }
    }

    /// Scans the rest of the text: every token in source order, closed by the
    /// end-of-input marker at the line reached. Diagnostics go to `lox`.
    pub fn scan_tokens(&mut self, lox: &mut Lox) -> (r: Vec<Token>)
        requires
            old(self).wf(),
        ensures
            final(self).wf(),
            final(self).text() == old(self).text(),
            final(self).position() == old(self).text().len(),
            final(self).emitted() == Seq::<TokenView>::empty(),
            ({
                let sc = scan_from(old(self).text(), old(self).position(), old(self).at_line());
                &&& tokens_view(r@) == old(self).emitted() + sc.tokens.push(
                    eof_view(sc.line as nat),
                )
                &&& final(self).at_line() == sc.line
                &&& final(lox).reports() == old(lox).reports() + sc.diagnostics
                &&& final(lox).failed() == (old(lox).failed() || sc.diagnostics.len() > 0)
            }),
    {
        let ghost src = self.chars@;
        let ghost sc = scan_from(src, self.current as int, self.line as int);
        let ghost toks0 = tokens_view(self.tokens@);
        let ghost reps0 = lox.reports();
        let ghost failed0 = lox.failed();
        while !self.is_at_end()
            invariant
                self.wf(),
                self.chars@ == src,
                ({
                    let rest = scan_from(src, self.current as int, self.line as int);
                    &&& toks0 + sc.tokens == tokens_view(self.tokens@) + rest.tokens
                    &&& reps0 + sc.diagnostics == lox.reports() + rest.diagnostics
                    &&& rest.line == sc.line
                }),
                lox.reports().len() >= reps0.len(),
                lox.failed() == (failed0 || lox.reports().len() > reps0.len()),
            decreases src.len() - self.current,
        {
            let ghost before_toks = tokens_view(self.tokens@);
            let ghost before_reps = lox.reports();
            let ghost pos = self.current as int;
            let ghost ln = self.line as int;
            self.start = self.current;
            self.scan_token(lox);
            proof {
                let s = step(src, pos, ln);
                let rest = scan_from(src, s.end, s.line);
                assert(scan_from(src, pos, ln).tokens == opt_seq(s.token) + rest.tokens);
                assert(before_toks + (opt_seq(s.token) + rest.tokens) =~= (before_toks + opt_seq(
                    s.token,
                )) + rest.tokens);
                assert(before_reps + (opt_seq(s.diagnostic) + rest.diagnostics) =~= (before_reps
                    + opt_seq(s.diagnostic)) + rest.diagnostics);
            }
        }
        let eof = Token::eof(self.line);
        let ghost before_toks = tokens_view(self.tokens@);
        self.tokens.push(eof);
        let mut out: Vec<Token> = Vec::new();
        std::mem::swap(&mut out, &mut self.tokens);
        proof {
            assert(tokens_view(out@) =~= before_toks.push(eof@));
            assert(toks0 + sc.tokens == before_toks);
            assert(toks0 + sc.tokens.push(eof_view(sc.line as nat)) =~= before_toks.push(eof@));
            assert(lox.reports() =~= reps0 + sc.diagnostics);
            assert(tokens_view(self.tokens@) =~= Seq::<TokenView>::empty());
        }
        out
    }

    /// Scans the one lexeme that begins at the cursor.
    fn scan_token(&mut self, lox: &mut Lox)
        requires
            old(self).wf(),
            old(self).start == old(self).current,
            old(self).current < old(self).chars@.len(),
        ensures
            final(self).wf(),
            final(self).chars@ == old(self).chars@,
            final(self).current > old(self).current,
            ({
                let s = step(old(self).chars@, old(self).current as int, old(self).line as int);
                &&& final(self).current == s.end
                &&& final(self).line == s.line
                &&& tokens_view(final(self).tokens@) == tokens_view(old(self).tokens@) + opt_seq(
                    s.token,
                )
                &&& final(lox).reports() == old(lox).reports() + opt_seq(s.diagnostic)
                &&& final(lox).failed() == (old(lox).failed() || s.diagnostic is Some)
            }),
    {
        let ghost toks0 = tokens_view(self.tokens@);
        let ghost reps0 = lox.reports();
        let c = self.advance();
        proof {
            assert(toks0 + Seq::<TokenView>::empty() =~= toks0);
            assert(reps0 + Seq::<DiagnosticView>::empty() =~= reps0);
        }
        match c {
            '(' => self.add_token(TokenForm::LeftParen, None),
            ')' => self.add_token(TokenForm::RightParen, None),
            '{' => self.add_token(TokenForm::LeftBrace, None),
            '}' => self.add_token(TokenForm::RightBrace, None),
            ',' => self.add_token(TokenForm::Comma, None),
            '.' => self.add_token(TokenForm::Dot, None),
            '-' => self.add_token(TokenForm::Minus, None),
            '+' => self.add_token(TokenForm::Plus, None),
            ';' => self.add_token(TokenForm::Semicolon, None),
            '*' => self.add_token(TokenForm::Star, None),
            '!' => {
                let form = if self.matches('=') {
                    TokenForm::BangEqual
                } else {
                    TokenForm::Bang
                };
                self.add_token(form, None);
            },
            '=' => {
                let form = if self.matches('=') {
                    TokenForm::EqualEqual
                } else {
                    TokenForm::Equal
                };
                self.add_token(form, None);
            },
            '<' => {
                let form = if self.matches('=') {
                    TokenForm::LessEqual
                } else {
                    TokenForm::Less
                };
                self.add_token(form, None);
            },
            '>' => {
                let form = if self.matches('=') {
                    TokenForm::GreaterEqual
                } else {
                    TokenForm::Greater
                };
                self.add_token(form, None);
            },
            '/' => {
                if self.matches('/') {
                    self.comment();
                } else {
                    self.add_token(TokenForm::Slash, None);
                }
            },
            ' ' | '\r' | '\t' => {},
            '\n' => {
                self.line += 1;
            },
            '"' => self.string(lox),
            _ => {
                if self.is_digit(c) {
                    self.number();
                } else if self.is_alpha(c) {
                    self.identifier();
                } else {
                    let message = String::from_str("Unexpected character");
                    lox.error(self.line, message);
                }
            },
        }
    }

    fn is_digit(&self, c: char) -> (r: bool)
        ensures
            r == is_digit_char(c),
    {
        c >= '0' && c <= '9'
    }

    fn is_alpha(&self, c: char) -> (r: bool)
        ensures
            r == is_alpha_char(c),
    {
        (c >= 'a' && c <= 'z') || (c >= 'A' && c <= 'Z') || c == '_'
    }

    fn is_alphanumeric(&self, c: char) -> (r: bool)
        ensures
            r == is_alphanumeric_char(c),
    {
        self.is_digit(c) || self.is_alpha(c)
    }

    /// Discards the rest of a line comment, up to the newline.
    fn comment(&mut self)
        requires
            old(self).wf(),
            old(self).start + 2 == old(self).current,
        ensures
            final(self).wf(),
            final(self).current >= old(self).current,
            final(self).keeps_text(old(self)),
            final(self).line == old(self).line,
            final(self).current == run_end(old(self).chars@, old(self).current as int, comment_run()),
    {
        let ghost first = self.current as int;
        while self.peek() != '\n' && !self.is_at_end()
            invariant
                self.wf(),
                self.keeps_text(old(self)),
                self.line == old(self).line,
                first <= self.current,
                run_end(self.chars@, first, comment_run()) == run_end(
                    self.chars@,
                    self.current as int,
                    comment_run(),
                ),
            decreases self.chars@.len() - self.current,
        {
            self.advance();
        }
    }

    /// Scans the identifier or keyword whose first character was consumed.
    fn identifier(&mut self)
        requires
            old(self).wf(),
            old(self).start + 1 == old(self).current,
        ensures
            final(self).wf(),
            final(self).current >= old(self).current,
            final(self).chars@ == old(self).chars@,
            final(self).line == old(self).line,
            ({
                let src = old(self).chars@;
                let end = word_end(src, old(self).start as int);
                &&& final(self).current == end
                &&& tokens_view(final(self).tokens@) == tokens_view(old(self).tokens@).push(
                    TokenView {
                        form: word_form(src.subrange(old(self).start as int, end)),
                        lexeme: src.subrange(old(self).start as int, end),
                        literal: None,
                        line: old(self).line as nat,
                    },
                )
            }),
    {
        let ghost first = self.current as int;
        while self.is_alphanumeric(self.peek())
            invariant
                self.wf(),
                self.keeps_text(old(self)),
                self.line == old(self).line,
                first <= self.current,
                run_end(self.chars@, first, word_run()) == run_end(
                    self.chars@,
                    self.current as int,
                    word_run(),
                ),
            decreases self.chars@.len() - self.current,
        {
            self.advance();
        }
        let form = self.word_form();
        self.add_token(form, None);
    }

    /// The category of the lexeme under the cursor, read as a word.
    fn word_form(&self) -> (r: TokenForm)
        requires
            self.wf(),
        ensures
            r == word_form(self.chars@.subrange(self.start as int, self.current as int)),
    {
        if self.lexeme_is(&vec!['a', 'n', 'd']) {
            TokenForm::And
        } else if self.lexeme_is(&vec!['c', 'l', 'a', 's', 's']) {
            TokenForm::Class
        } else if self.lexeme_is(&vec!['e', 'l', 's', 'e']) {
            TokenForm::Else
        } else if self.lexeme_is(&vec!['f', 'a', 'l', 's', 'e']) {
            TokenForm::False
        } else if self.lexeme_is(&vec!['f', 'o', 'r']) {
            TokenForm::For
        } else if self.lexeme_is(&vec!['f', 'u', 'n']) {
            TokenForm::Fun
        } else if self.lexeme_is(&vec!['i', 'f']) {
            TokenForm::If
        } else if self.lexeme_is(&vec!['n', 'i', 'l']) {
            TokenForm::Nil
        } else if self.lexeme_is(&vec!['o', 'r']) {
            TokenForm::Or
        } else if self.lexeme_is(&vec!['p', 'r', 'i', 'n', 't']) {
            TokenForm::Print
        } else if self.lexeme_is(&vec!['r', 'e', 't', 'u', 'r', 'n']) {
            TokenForm::Return
        } else if self.lexeme_is(&vec!['s', 'u', 'p', 'e', 'r']) {
            TokenForm::Super
        } else if self.lexeme_is(&vec!['t', 'h', 'i', 's']) {
            TokenForm::This
        } else if self.lexeme_is(&vec!['t', 'r', 'u', 'e']) {
            TokenForm::True
        } else if self.lexeme_is(&vec!['v', 'a', 'r']) {
            TokenForm::Var
        } else if self.lexeme_is(&vec!['w', 'h', 'i', 'l', 'e']) {
            TokenForm::While
        } else {
            TokenForm::Identifier
        }
    }

    /// Whether the lexeme under the cursor is exactly `word`.
    fn lexeme_is(&self, word: &Vec<char>) -> (r: bool)
        requires
            self.wf(),
        ensures
            r == (self.chars@.subrange(self.start as int, self.current as int) == word@),
    {
        let ghost lex = self.chars@.subrange(self.start as int, self.current as int);
        if self.current - self.start != word.len() {
            proof {
                assert(lex.len() != word@.len());
            }
            return false;
        }
        let mut i: usize = 0;
        while i < word.len()
            invariant
                self.wf(),
                lex == self.chars@.subrange(self.start as int, self.current as int),
                lex.len() == word@.len(),
                i <= word.len(),
                forall|k: int| 0 <= k < i ==> lex[k] == word@[k],
            decreases word.len() - i,
        {
            if self.chars[self.start + i] != word[i] {
                proof {
                    assert(lex[i as int] != word@[i as int]);
                }
                return false;
            }
            i += 1;
        }
        proof {
            assert(lex =~= word@);
        }
        true
    }

    /// Scans the number literal whose first digit was consumed.
    fn number(&mut self)
        requires
            old(self).wf(),
            old(self).start + 1 == old(self).current,
        ensures
            final(self).wf(),
            final(self).current >= old(self).current,
            final(self).chars@ == old(self).chars@,
            final(self).line == old(self).line,
            ({
                let src = old(self).chars@;
                let end = number_end(src, old(self).start as int);
                &&& final(self).current == end
                &&& tokens_view(final(self).tokens@) == tokens_view(old(self).tokens@).push(
                    TokenView {
                        form: TokenForm::Number,
                        lexeme: src.subrange(old(self).start as int, end),
                        literal: Some(
                            LiteralView::Number(src.subrange(old(self).start as int, end)),
                        ),
                        line: old(self).line as nat,
                    },
                )
            }),
    {
        let ghost first = self.current as int;
        while self.is_digit(self.peek())
            invariant
                self.wf(),
                self.keeps_text(old(self)),
                self.line == old(self).line,
                first <= self.current,
                run_end(self.chars@, first, digit_run()) == run_end(
                    self.chars@,
                    self.current as int,
                    digit_run(),
                ),
            decreases self.chars@.len() - self.current,
        {
            self.advance();
        }
        if self.peek() == '.' && self.is_digit(self.peek_next()) {
            self.advance();
            self.advance();
            let ghost second = self.current as int;
            while self.is_digit(self.peek())
                invariant
                    self.wf(),
                    self.keeps_text(old(self)),
                    self.line == old(self).line,
                    second <= self.current,
                    run_end(self.chars@, second, digit_run()) == run_end(
                        self.chars@,
                        self.current as int,
                        digit_run(),
                    ),
                decreases self.chars@.len() - self.current,
            {
                self.advance();
            }
        }
        let text = self.lexeme();
        self.add_token(TokenForm::Number, Some(Literal::Number(text)));
    }

    /// Scans the string literal whose opening quote was consumed; reports
    /// an unterminated one to `lox`.
    fn string(&mut self, lox: &mut Lox)
        requires
            old(self).wf(),
            old(self).start + 1 == old(self).current,
        ensures
            final(self).wf(),
            final(self).current >= old(self).current,
            final(self).chars@ == old(self).chars@,
            ({
                let s = string_step(old(self).chars@, old(self).start as int, old(self).line as int);
                &&& final(self).current == s.end
                &&& final(self).line == s.line
                &&& tokens_view(final(self).tokens@) == tokens_view(old(self).tokens@) + opt_seq(
                    s.token,
                )
                &&& final(lox).reports() == old(lox).reports() + opt_seq(s.diagnostic)
                &&& final(lox).failed() == (old(lox).failed() || s.diagnostic is Some)
            }),
    {
        let ghost first = self.current as int;
        let ghost src = self.chars@;
        let opening_line = self.line;
        while self.peek() != '"' && !self.is_at_end()
            invariant
                self.wf(),
                self.keeps_text(old(self)),
                src == self.chars@,
                first == old(self).current,
                first <= self.current,
                self.line == opening_line + count_newlines(
                    src.subrange(first, self.current as int),
                ),
                run_end(src, first, string_run()) == run_end(
                    src,
                    self.current as int,
                    string_run(),
                ),
            decreases self.chars@.len() - self.current,
        {
            let ghost at = self.current as int;
            let c = self.advance();
            if c == '\n' {
                self.line += 1;
            }
            proof {
                let seen = src.subrange(first, self.current as int);
                assert(seen.drop_last() =~= src.subrange(first, at));
                assert(seen.last() == c);
            }
        }
        if self.is_at_end() {
            let message = String::from_str("Unterminated string");
            lox.error(self.line, message);
            proof {
                assert(tokens_view(self.tokens@) + Seq::<TokenView>::empty() =~= tokens_view(
                    self.tokens@,
                ));
            }
            return;
        }
        self.advance();
        let value = String::from_str(
            self.source.as_str().substring_char(self.start + 1, self.current - 1),
        );
        self.add_token_at(TokenForm::String, Some(Literal::Str(value)), opening_line);
        proof {
            assert(lox.reports() + Seq::<DiagnosticView>::empty() =~= lox.reports());
        }
    }

    /// The lexeme under the cursor, as a new string.
    fn lexeme(&self) -> (r: String)
        requires
            self.wf(),
        ensures
            r@ == self.chars@.subrange(self.start as int, self.current as int),
    {
        String::from_str(self.source.as_str().substring_char(self.start, self.current))
    }

    /// The character at the cursor, or the null character at the end.
    fn peek(&self) -> (r: char)
        requires
            self.wf(),
        ensures
            r == peek_at(self.chars@, self.current as int),
    {
        if self.is_at_end() {
            return '\0';
        }
        self.chars[self.current]
    }

    /// The character after the cursor, or the null character past the end.
    fn peek_next(&self) -> (r: char)
        requires
            self.wf(),
        ensures
            r == peek_at(self.chars@, self.current + 1),
    {
        if self.current + 1 >= self.chars.len() {
            return '\0';
        }
        self.chars[self.current + 1]
    }

    /// Consumes the character at the cursor when it is `expected`.
    fn matches(&mut self, expected: char) -> (r: bool)
        requires
            old(self).wf(),
        ensures
            final(self).wf(),
            final(self).keeps_text(old(self)),
            final(self).line == old(self).line,
            r == (old(self).current < old(self).chars@.len() && old(self).chars@[old(
                self,
            ).current as int] == expected),
            final(self).current == old(self).current + if r {
                1int
            } else {
                0int
            },
    {
        if self.is_at_end() {
            return false;
        }
        if self.chars[self.current] == expected {
            self.current += 1;
            true
        } else {
            false
        }
    }

    /// Emits a token for the lexeme under the cursor at the current line.
    fn add_token(&mut self, form: TokenForm, literal: Option<Literal>)
        requires
            old(self).wf(),
        ensures
            final(self).wf(),
            final(self).chars@ == old(self).chars@,
            final(self).start == old(self).start,
            final(self).current == old(self).current,
            final(self).line == old(self).line,
            tokens_view(final(self).tokens@) == tokens_view(old(self).tokens@).push(
                TokenView {
                    form,
                    lexeme: old(self).chars@.subrange(
                        old(self).start as int,
                        old(self).current as int,
                    ),
                    literal: literal_view(literal),
                    line: old(self).line as nat,
                },
            ),
    {
        let line = self.line;
        self.add_token_at(form, literal, line);
    }

    /// Emits a token for the lexeme under the cursor at `line`.
    fn add_token_at(&mut self, form: TokenForm, literal: Option<Literal>, line: usize)
        requires
            old(self).wf(),
        ensures
            final(self).wf(),
            final(self).chars@ == old(self).chars@,
            final(self).start == old(self).start,
            final(self).current == old(self).current,
            final(self).line == old(self).line,
            tokens_view(final(self).tokens@) == tokens_view(old(self).tokens@).push(
                TokenView {
                    form,
                    lexeme: old(self).chars@.subrange(
                        old(self).start as int,
                        old(self).current as int,
                    ),
                    literal: literal_view(literal),
                    line: line as nat,
                },
            ),
    {
        let lexeme = self.lexeme();
        let token = Token { form, lexeme, literal, line };
        let ghost before = self.tokens@;
        self.tokens.push(token);
        proof {
            assert(tokens_view(self.tokens@) =~= tokens_view(before).push(token@));
        }
    }

    /// Consumes and returns the character at the cursor.
    fn advance(&mut self) -> (r: char)
        requires
            old(self).wf(),
            old(self).current < old(self).chars@.len(),
        ensures
            final(self).wf(),
            final(self).keeps_text(old(self)),
            final(self).line == old(self).line,
            final(self).current == old(self).current + 1,
            r == old(self).chars@[old(self).current as int],
    {
        let c = self.chars[self.current];
        self.current += 1;
        c
    }

    /// Whether the cursor has reached the end of the text.
    fn is_at_end(&self) -> (r: bool)
        ensures
            r == (self.current >= self.chars@.len()),
    {
        self.current >= self.chars.len()
    }
}

} // verus!
