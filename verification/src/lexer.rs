//! Lexical scanner for the register-assembly dialect.
//!
//! `Lexer::scan` turns a borrowed source string into an ordered sequence of
//! positioned tokens.  Its full behaviour is captured by the recursive
//! specification [`scan_spec`]: scanning succeeds exactly when `scan_spec`
//! yields a token sequence, and then the tokens produced match it one for
//! one, lexemes and line numbers included.

use vstd::prelude::*;

verus! {

/// The closed set of token kinds the scanner can emit.
#[derive(Debug, PartialEq, Eq, Structural, Clone, Copy)]
pub enum Token {
    Symbol,
    StrLit,
    Number,
    Reg,
    OpCode,
    Bang,
    Colon,
    // keywords
    BinFormat,
    BlkBegin,
    BlkEnd,
    // others
    Ln,
    Eof,
}

/// A positioned token: kind, the exact source text it covers, and the
/// 1-based line it starts on.
#[derive(Debug)]
pub struct Pos {
    pub token: Token,
    pub lexeme: String,
    pub line: usize,
}

/// Mathematical image of a [`Pos`]: the same data over `Seq<char>` and `nat`.
pub struct TokenInfo {
    pub token: Token,
    pub lexeme: Seq<char>,
    pub line: nat,
}

impl View for Pos {
    type V = TokenInfo;

    open spec fn view(&self) -> TokenInfo {
        TokenInfo { token: self.token, lexeme: self.lexeme@, line: self.line as nat }
    }
}

impl Pos {
    pub fn new(token: Token, lexeme: &str, line: usize) -> (p: Pos)
        ensures
            p.token == token,
            p.lexeme@ == lexeme@,
            p.line == line,
    {
        Pos { token, lexeme: lexeme.to_owned(), line }
    }
}

/// Failure of a scan: an unterminated comment or string, or a character
/// outside the grammar.
#[derive(Debug)]
pub struct LexError {}

impl LexError {
    pub fn raise() -> (e: LexError)
        ensures
            e == (LexError {  }),
    {
        LexError {}
    }
}

/// '0' to '9'.
pub open spec fn digit(c: char) -> bool {
    '0' <= c && c <= '9'
}

/// 'A' to 'Z'.
pub open spec fn upper(c: char) -> bool {
    'A' <= c && c <= 'Z'
}

/// A letter of either case, or an underscore.
pub open spec fn alpha(c: char) -> bool {
    ('a' <= c && c <= 'z') || ('A' <= c && c <= 'Z') || c == '_'
}

/// A character that may continue an opcode: uppercase, digit or underscore.
pub open spec fn opcode_char(c: char) -> bool {
    ('A' <= c && c <= 'Z') || ('0' <= c && c <= '9') || c == '_'
}

/// A character that may continue a symbol: letter, digit or underscore.
pub open spec fn alphanumeric(c: char) -> bool {
    alpha(c) || digit(c)
}

fn is_digit(c: char) -> (r: bool)
    ensures
        r == digit(c),
{
    c >= '0' && c <= '9'
}

fn is_upper(c: char) -> (r: bool)
    ensures
        r == upper(c),
{
    c >= 'A' && c <= 'Z'
}

fn is_alpha(c: char) -> (r: bool)
    ensures
        r == alpha(c),
{
    (c >= 'a' && c <= 'z') || (c >= 'A' && c <= 'Z') || c == '_'
}

fn is_opcode_valid(c: char) -> (r: bool)
    ensures
        r == opcode_char(c),
{
    (c >= 'A' && c <= 'Z') || (c >= '0' && c <= '9') || c == '_'
}

fn is_alphanumeric(c: char) -> (r: bool)
    ensures
        r == alphanumeric(c),
{
    is_alpha(c) || is_digit(c)
}

/// The digit class, as a value, so every use names the same predicate.
pub open spec fn digit_pred() -> spec_fn(char) -> bool {
    |c: char| digit(c)
}

/// The opcode-continuation class, as a value.
pub open spec fn opcode_pred() -> spec_fn(char) -> bool {
    |c: char| opcode_char(c)
}

/// The symbol-continuation class, as a value.
pub open spec fn symbol_pred() -> spec_fn(char) -> bool {
    |c: char| alphanumeric(c)
}

/// Everything but a line break, as a value.
pub open spec fn not_newline_pred() -> spec_fn(char) -> bool {
    |c: char| c != '\n'
}

/// First position at or after `i` whose character fails `pred` (or the end
/// of the source): the end of a greedy run.
pub open spec fn run_end(src: Seq<char>, i: int, pred: spec_fn(char) -> bool) -> int
    decreases src.len() - i,
{
    if i >= src.len() {
        i
    } else if pred(src[i]) {
        run_end(src, i + 1, pred)
    } else {
        i
    }
}

pub proof fn lemma_run_end(src: Seq<char>, i: int, pred: spec_fn(char) -> bool)
    requires
        i <= src.len(),
    ensures
        i <= run_end(src, i, pred) <= src.len(),
        forall|k: int| i <= k < run_end(src, i, pred) ==> pred(src[k]),
        run_end(src, i, pred) < src.len() ==> !pred(src[run_end(src, i, pred)]),
    decreases src.len() - i,
{
    if i >= src.len() {
    } else if pred(src[i]) {
        lemma_run_end(src, i + 1, pred);
    } else {
    }
}

/// Where a parenthesized comment opened just before `i` ends: the position
/// after the first `)`, or nothing if a line break or the end of the source
/// comes first.
pub open spec fn comment_end(src: Seq<char>, i: int) -> Option<int>
    decreases src.len() - i,
{
    if i >= src.len() {
        None
    } else if src[i] == '\n' {
        None
    } else if src[i] == ')' {
        Some(i + 1)
    } else {
        comment_end(src, i + 1)
    }
}

pub proof fn lemma_comment_end(src: Seq<char>, i: int)
    ensures
        comment_end(src, i) matches Some(p) ==> i < p <= src.len(),
    decreases src.len() - i,
{
    if i >= src.len() {
    } else if src[i] == '\n' {
    } else if src[i] == ')' {
    } else {
        lemma_comment_end(src, i + 1);
    }
}

/// Where a string literal opened just before `i` ends: the position after
/// the closing quote, or nothing if a line break or the end of the source
/// comes first.
pub open spec fn string_end(src: Seq<char>, i: int, quote: char) -> Option<int>
    decreases src.len() - i,
{
    if i >= src.len() {
        None
    } else if src[i] == quote {
        Some(i + 1)
    } else if src[i] == '\n' {
        None
    } else {
        string_end(src, i + 1, quote)
    }
}

pub proof fn lemma_string_end(src: Seq<char>, i: int, quote: char)
    ensures
        string_end(src, i, quote) matches Some(p) ==> i < p <= src.len(),
    decreases src.len() - i,
{
    if i >= src.len() {
    } else if src[i] == quote {
    } else if src[i] == '\n' {
    } else {
        lemma_string_end(src, i + 1, quote);
    }
}

/// Prefix some tokens onto the outcome of scanning a suffix; an error stays
/// an error.
pub open spec fn prepend(ts: Seq<TokenInfo>, rest: Option<Seq<TokenInfo>>) -> Option<
    Seq<TokenInfo>,
> {
    match rest {
        Some(r) => Some(ts + r),
        None => None,
    }
}

/// Prefix a single token.
pub open spec fn prepend1(t: TokenInfo, rest: Option<Seq<TokenInfo>>) -> Option<Seq<TokenInfo>> {
    prepend(seq![t], rest)
}

proof fn lemma_prepend_empty(rest: Option<Seq<TokenInfo>>)
    ensures
        prepend(Seq::empty(), rest) == rest,
{
    match rest {
        Some(r) => {
            assert(Seq::empty() + r =~= r);
        },
        None => {},
    }
}

proof fn lemma_prepend_assoc(a: Seq<TokenInfo>, b: Seq<TokenInfo>, rest: Option<Seq<TokenInfo>>)
    ensures
        prepend(a, prepend(b, rest)) == prepend(a + b, rest),
{
    match rest {
        Some(r) => {
            assert(a + (b + r) =~= (a + b) + r);
        },
        None => {},
    }
}

/// The tokens that scanning `src` from position `i` on line `line` yields,
/// or `None` on a lexical error.  This is the scanner's whole grammar:
/// single-line parenthesized comments, semicolon comments, `!` and `:`
/// marks, the `R`-prefix ambiguity between registers and opcodes resolved by
/// one character of lookahead, significant newlines, quoted strings, and
/// greedy number, opcode and symbol runs.  A final `Eof` token is always
/// appended.
pub open spec fn scan_spec(src: Seq<char>, i: int, line: nat) -> Option<Seq<TokenInfo>>
    decreases src.len() - i,
        via scan_spec_decreases
{
    if i >= src.len() {
        Some(seq![TokenInfo { token: Token::Eof, lexeme: Seq::empty(), line }])
    } else {
        let c = src[i];
        if c == '(' {
            match comment_end(src, i + 1) {
                Some(p) => scan_spec(src, p, line),
                None => None,
            }
        } else if c == ';' {
            scan_spec(src, run_end(src, i + 1, not_newline_pred()), line)
        } else if c == '!' {
            prepend1(
                TokenInfo { token: Token::Bang, lexeme: src.subrange(i, i + 1), line },
                scan_spec(src, i + 1, line),
            )
        } else if c == ':' {
            prepend1(
                TokenInfo { token: Token::Colon, lexeme: src.subrange(i, i + 1), line },
                scan_spec(src, i + 1, line),
            )
        } else if c == 'R' {
            if i + 1 < src.len() && digit(src[i + 1]) {
                let e = run_end(src, i + 1, digit_pred());
                prepend1(
                    TokenInfo { token: Token::Reg, lexeme: src.subrange(i, e), line },
                    scan_spec(src, e, line),
                )
            } else {
                let e = run_end(src, i + 1, opcode_pred());
                prepend1(
                    TokenInfo { token: Token::OpCode, lexeme: src.subrange(i, e), line },
                    scan_spec(src, e, line),
                )
            }
        } else if c == ' ' || c == '\r' || c == '\t' {
            scan_spec(src, i + 1, line)
        } else if c == '\n' {
            prepend1(
                TokenInfo { token: Token::Ln, lexeme: src.subrange(i, i + 1), line },
                scan_spec(src, i + 1, line + 1),
            )
        } else if c == '"' {
            match string_end(src, i + 1, '"') {
                Some(p) => prepend1(
                    TokenInfo { token: Token::StrLit, lexeme: src.subrange(i, p), line },
                    scan_spec(src, p, line),
                ),
                None => None,
            }
        } else if digit(c) {
            let e = run_end(src, i + 1, digit_pred());
            prepend1(
                TokenInfo { token: Token::Number, lexeme: src.subrange(i, e), line },
                scan_spec(src, e, line),
            )
        } else if upper(c) {
            let e = run_end(src, i + 1, opcode_pred());
            prepend1(
                TokenInfo { token: Token::OpCode, lexeme: src.subrange(i, e), line },
                scan_spec(src, e, line),
            )
        } else if alpha(c) {
            let e = run_end(src, i + 1, symbol_pred());
            prepend1(
                TokenInfo { token: Token::Symbol, lexeme: src.subrange(i, e), line },
                scan_spec(src, e, line),
            )
        } else {
            None
        }
    }
}

#[via_fn]
proof fn scan_spec_decreases(src: Seq<char>, i: int, line: nat) {
    if i < src.len() {
        lemma_comment_end(src, i + 1);
        lemma_string_end(src, i + 1, '"');
        lemma_run_end(src, i + 1, not_newline_pred());
        lemma_run_end(src, i + 1, digit_pred());
        lemma_run_end(src, i + 1, opcode_pred());
        lemma_run_end(src, i + 1, symbol_pred());
    }
}

/// The views of a produced token sequence.
pub open spec fn toks(ts: Seq<Pos>) -> Seq<TokenInfo> {
    ts.map_values(|p: Pos| p@)
}

/// Law: whenever scanning succeeds, the token sequence is non-empty and its
/// last token is the `Eof` sentinel, whatever the source holds.
pub proof fn lemma_scan_spec_ends_eof(src: Seq<char>, i: int, line: nat)
    requires
        0 <= i,
    ensures
        scan_spec(src, i, line) matches Some(ts) ==> ts.len() >= 1 && ts.last().token
            == Token::Eof,
    decreases src.len() - i,
{
    if i >= src.len() {
    } else {
        let c = src[i];
        lemma_comment_end(src, i + 1);
        lemma_string_end(src, i + 1, '"');
        lemma_run_end(src, i + 1, not_newline_pred());
        lemma_run_end(src, i + 1, digit_pred());
        lemma_run_end(src, i + 1, opcode_pred());
        lemma_run_end(src, i + 1, symbol_pred());
        if c == '(' {
            match comment_end(src, i + 1) {
                Some(p) => lemma_scan_spec_ends_eof(src, p, line),
                None => {},
            }
        } else if c == ';' {
            lemma_scan_spec_ends_eof(src, run_end(src, i + 1, not_newline_pred()), line);
        } else if c == '!' || c == ':' {
            lemma_scan_spec_ends_eof(src, i + 1, line);
        } else if c == 'R' {
            if i + 1 < src.len() && digit(src[i + 1]) {
                lemma_scan_spec_ends_eof(src, run_end(src, i + 1, digit_pred()), line);
            } else {
                lemma_scan_spec_ends_eof(src, run_end(src, i + 1, opcode_pred()), line);
            }
        } else if c == ' ' || c == '\r' || c == '\t' {
            lemma_scan_spec_ends_eof(src, i + 1, line);
        } else if c == '\n' {
            lemma_scan_spec_ends_eof(src, i + 1, line + 1);
        } else if c == '"' {
            match string_end(src, i + 1, '"') {
                Some(p) => lemma_scan_spec_ends_eof(src, p, line),
                None => {},
            }
        } else if digit(c) {
            lemma_scan_spec_ends_eof(src, run_end(src, i + 1, digit_pred()), line);
        } else if upper(c) {
            lemma_scan_spec_ends_eof(src, run_end(src, i + 1, opcode_pred()), line);
        } else if alpha(c) {
            lemma_scan_spec_ends_eof(src, run_end(src, i + 1, symbol_pred()), line);
        } else {
        }
    }
}

/// Law: a well-formed parenthesized comment that closes before any line
/// break contributes no tokens, and scanning resumes at the position just
/// past the closing parenthesis.
pub proof fn lemma_comment_emits_nothing(src: Seq<char>, i: int, line: nat, j: int)
    requires
        0 <= i < j < src.len(),
        src[i] == '(',
        src[j] == ')',
        forall|k: int| i < k < j ==> src[k] != ')' && src[k] != '\n',
    ensures
        scan_spec(src, i, line) == scan_spec(src, j + 1, line),
{
    lemma_comment_end_finds(src, i + 1, j);
}

proof fn lemma_comment_end_finds(src: Seq<char>, m: int, j: int)
    requires
        0 <= m <= j < src.len(),
        src[j] == ')',
        forall|k: int| m <= k < j ==> src[k] != ')' && src[k] != '\n',
    ensures
        comment_end(src, m) == Some(j + 1),
    decreases j - m,
{
    if m == j {
    } else {
        lemma_comment_end_finds(src, m + 1, j);
    }
}

/// The character under the cursor, or NUL once the cursor is past the end.
pub open spec fn peek_char(src: Seq<char>, i: int) -> char {
    if 0 <= i < src.len() {
        src[i]
    } else {
        '\0'
    }
}

/// Cursor state over a borrowed source: the tokens emitted so far, the start
/// of the token being read, the read position, and the current line.
#[derive(Debug)]
pub struct Lexer<'source> {
    pub source: &'source str,
    pub tokens: Vec<Pos>,
    pub start: usize,
    pub current: usize,
    pub line: usize,
}

impl<'source> Lexer<'source> {
    /// Cursor bounds that every operation preserves.
    pub open spec fn wf(&self) -> bool {
        &&& self.start <= self.current
        &&& self.current <= self.source@.len()
        &&& 1 <= self.line
        &&& self.line <= self.current + 1
        &&& self.source@.len() <= usize::MAX
    }

    pub fn new(source: &'source str) -> (l: Lexer<'source>)
        ensures
            l.wf(),
            l.source == source,
            l.tokens@.len() == 0,
            l.start == 0,
            l.current == 0,
            l.line == 1,
    {
        // Counting the characters shows the count fits a usize, which wf
        // records and every cursor bound rests on.
        let _count: usize = source.unicode_len();
        let tokens = Vec::new();
        Lexer { source, tokens, start: 0, current: 0, line: 1 }
    }

    fn is_at_end(&self) -> (r: bool)
        ensures
            r == (self.current >= self.source@.len()),
    {
        self.current >= self.source.unicode_len()
    }

    fn peek(&self) -> (c: char)
        requires
            self.wf(),
        ensures
            c == peek_char(self.source@, self.current as int),
    {
        if self.is_at_end() {
            '\0'
        } else {
            self.source.get_char(self.current)
        }
    }

    fn advance(&mut self) -> (c: char)
        requires
            old(self).wf(),
            old(self).current < old(self).source@.len(),
        ensures
            final(self).wf(),
            c == old(self).source@[old(self).current as int],
            final(self).current == old(self).current + 1,
            final(self).source == old(self).source,
            final(self).tokens == old(self).tokens,
            final(self).start == old(self).start,
            final(self).line == old(self).line,
    {
        let c = self.source.get_char(self.current);
        self.current = self.current + 1;
        c
    }

    fn push(&mut self, token: Token)
        requires
            old(self).wf(),
        ensures
            final(self).wf(),
            final(self).source == old(self).source,
            final(self).start == old(self).start,
            final(self).current == old(self).current,
            final(self).line == old(self).line,
            final(self).tokens@.len() == old(self).tokens@.len() + 1,
            forall|k: int|
                0 <= k < old(self).tokens@.len() ==> final(self).tokens@[k] == old(
                    self,
                ).tokens@[k],
            toks(final(self).tokens@) == toks(old(self).tokens@).push(
                TokenInfo {
                    token,
                    lexeme: old(self).source@.subrange(
                        old(self).start as int,
                        old(self).current as int,
                    ),
                    line: old(self).line as nat,
                },
            ),
    {
        let ghost t0 = self.tokens@;
        let lexeme = self.source.substring_char(self.start, self.current);
        let p = Pos::new(token, lexeme, self.line);
        self.tokens.push(p);
        proof {
            assert(toks(self.tokens@) =~= toks(t0).push(
                TokenInfo {
                    token,
                    lexeme: self.source@.subrange(self.start as int, self.current as int),
                    line: self.line as nat,
                },
            ));
        }
    }

    fn number(&mut self)
        requires
            old(self).wf(),
        ensures
            final(self).wf(),
            final(self).source == old(self).source,
            final(self).start == old(self).start,
            final(self).line == old(self).line,
            old(self).current <= final(self).current,
            final(self).current as int == run_end(
                old(self).source@,
                old(self).current as int,
                digit_pred(),
            ),
            toks(final(self).tokens@) == toks(old(self).tokens@).push(
                TokenInfo {
                    token: Token::Number,
                    lexeme: old(self).source@.subrange(
                        old(self).start as int,
                        final(self).current as int,
                    ),
                    line: old(self).line as nat,
                },
            ),
            final(self).tokens@.len() == old(self).tokens@.len() + 1,
            forall|k: int|
                0 <= k < old(self).tokens@.len() ==> final(self).tokens@[k] == old(
                    self,
                ).tokens@[k],
    {
        let ghost src = self.source@;
        let ghost c0 = self.current as int;
        let ghost t0 = self.tokens@;
        let ghost s0 = self.start;
        let ghost l0 = self.line;
        let so = self.source;
        loop
            invariant_except_break
                self.wf(),
                self.source == so,
                self.source@ == src,
                self.tokens@ == t0,
                self.start == s0,
                self.line == l0,
                c0 <= self.current as int <= src.len(),
                run_end(src, c0, digit_pred()) == run_end(src, self.current as int, digit_pred()),
            ensures
                self.wf(),
                self.source == so,
                self.source@ == src,
                self.tokens@ == t0,
                self.start == s0,
                self.line == l0,
                c0 <= self.current as int,
                self.current as int == run_end(src, c0, digit_pred()),
            decreases src.len() - self.current,
        {
            if self.is_at_end() {
                break;
            }
            let ch = self.peek();
            if !is_digit(ch) {
                break;
            }
            let _ = self.advance();
        }
        self.push(Token::Number);
    }

    fn register(&mut self)
        requires
            old(self).wf(),
        ensures
            final(self).wf(),
            final(self).source == old(self).source,
            final(self).start == old(self).start,
            final(self).line == old(self).line,
            old(self).current <= final(self).current,
            final(self).current as int == run_end(
                old(self).source@,
                old(self).current as int,
                digit_pred(),
            ),
            toks(final(self).tokens@) == toks(old(self).tokens@).push(
                TokenInfo {
                    token: Token::Reg,
                    lexeme: old(self).source@.subrange(
                        old(self).start as int,
                        final(self).current as int,
                    ),
                    line: old(self).line as nat,
                },
            ),
            final(self).tokens@.len() == old(self).tokens@.len() + 1,
            forall|k: int|
                0 <= k < old(self).tokens@.len() ==> final(self).tokens@[k] == old(
                    self,
                ).tokens@[k],
    {
        let ghost src = self.source@;
        let ghost c0 = self.current as int;
        let ghost t0 = self.tokens@;
        let ghost s0 = self.start;
        let ghost l0 = self.line;
        let so = self.source;
        loop
            invariant_except_break
                self.wf(),
                self.source == so,
                self.source@ == src,
                self.tokens@ == t0,
                self.start == s0,
                self.line == l0,
                c0 <= self.current as int <= src.len(),
                run_end(src, c0, digit_pred()) == run_end(src, self.current as int, digit_pred()),
            ensures
                self.wf(),
                self.source == so,
                self.source@ == src,
                self.tokens@ == t0,
                self.start == s0,
                self.line == l0,
                c0 <= self.current as int,
                self.current as int == run_end(src, c0, digit_pred()),
            decreases src.len() - self.current,
        {
            if self.is_at_end() {
                break;
            }
            let ch = self.peek();
            if !is_digit(ch) {
                break;
            }
            let _ = self.advance();
        }
        self.push(Token::Reg);
    }

    fn opcode(&mut self)
        requires
            old(self).wf(),
        ensures
            final(self).wf(),
            final(self).source == old(self).source,
            final(self).start == old(self).start,
            final(self).line == old(self).line,
            old(self).current <= final(self).current,
            final(self).current as int == run_end(
                old(self).source@,
                old(self).current as int,
                opcode_pred(),
            ),
            toks(final(self).tokens@) == toks(old(self).tokens@).push(
                TokenInfo {
                    token: Token::OpCode,
                    lexeme: old(self).source@.subrange(
                        old(self).start as int,
                        final(self).current as int,
                    ),
                    line: old(self).line as nat,
                },
            ),
            final(self).tokens@.len() == old(self).tokens@.len() + 1,
            forall|k: int|
                0 <= k < old(self).tokens@.len() ==> final(self).tokens@[k] == old(
                    self,
                ).tokens@[k],
    {
        let ghost src = self.source@;
        let ghost c0 = self.current as int;
        let ghost t0 = self.tokens@;
        let ghost s0 = self.start;
        let ghost l0 = self.line;
        let so = self.source;
        loop
            invariant_except_break
                self.wf(),
                self.source == so,
                self.source@ == src,
                self.tokens@ == t0,
                self.start == s0,
                self.line == l0,
                c0 <= self.current as int <= src.len(),
                run_end(src, c0, opcode_pred()) == run_end(src, self.current as int, opcode_pred()),
            ensures
                self.wf(),
                self.source == so,
                self.source@ == src,
                self.tokens@ == t0,
                self.start == s0,
                self.line == l0,
                c0 <= self.current as int,
                self.current as int == run_end(src, c0, opcode_pred()),
            decreases src.len() - self.current,
        {
            if self.is_at_end() {
                break;
            }
            let ch = self.peek();
            if !is_opcode_valid(ch) {
                break;
            }
            let _ = self.advance();
        }
        self.push(Token::OpCode);
    }

    fn symbol(&mut self)
        requires
            old(self).wf(),
        ensures
            final(self).wf(),
            final(self).source == old(self).source,
            final(self).start == old(self).start,
            final(self).line == old(self).line,
            old(self).current <= final(self).current,
            final(self).current as int == run_end(
                old(self).source@,
                old(self).current as int,
                symbol_pred(),
            ),
            toks(final(self).tokens@) == toks(old(self).tokens@).push(
                TokenInfo {
                    token: Token::Symbol,
                    lexeme: old(self).source@.subrange(
                        old(self).start as int,
                        final(self).current as int,
                    ),
                    line: old(self).line as nat,
                },
            ),
            final(self).tokens@.len() == old(self).tokens@.len() + 1,
            forall|k: int|
                0 <= k < old(self).tokens@.len() ==> final(self).tokens@[k] == old(
                    self,
                ).tokens@[k],
    {
        let ghost src = self.source@;
        let ghost c0 = self.current as int;
        let ghost t0 = self.tokens@;
        let ghost s0 = self.start;
        let ghost l0 = self.line;
        let so = self.source;
        loop
            invariant_except_break
                self.wf(),
                self.source == so,
                self.source@ == src,
                self.tokens@ == t0,
                self.start == s0,
                self.line == l0,
                c0 <= self.current as int <= src.len(),
                run_end(src, c0, symbol_pred()) == run_end(src, self.current as int, symbol_pred()),
            ensures
                self.wf(),
                self.source == so,
                self.source@ == src,
                self.tokens@ == t0,
                self.start == s0,
                self.line == l0,
                c0 <= self.current as int,
                self.current as int == run_end(src, c0, symbol_pred()),
            decreases src.len() - self.current,
        {
            if self.is_at_end() {
                break;
            }
            let ch = self.peek();
            if !is_alphanumeric(ch) {
                break;
            }
            let _ = self.advance();
        }
        self.push(Token::Symbol);
    }

    fn string(&mut self, quote: char) -> (r: Result<(), LexError>)
        requires
            old(self).wf(),
        ensures
            final(self).wf(),
            final(self).source == old(self).source,
            final(self).start == old(self).start,
            final(self).line == old(self).line,
            old(self).current <= final(self).current,
            match r {
                Ok(_) => ({
                    &&& string_end(old(self).source@, old(self).current as int, quote) == Some(
                        final(self).current as int,
                    )
                    &&& toks(final(self).tokens@) == toks(old(self).tokens@).push(
                        TokenInfo {
                            token: Token::StrLit,
                            lexeme: old(self).source@.subrange(
                                old(self).start as int,
                                final(self).current as int,
                            ),
                            line: old(self).line as nat,
                        },
                    )
                    &&& final(self).tokens@.len() == old(self).tokens@.len() + 1
                    &&& forall|k: int|
                        0 <= k < old(self).tokens@.len() ==> final(self).tokens@[k] == old(
                            self,
                        ).tokens@[k]
                }),
                Err(_) => ({
                    &&& string_end(old(self).source@, old(self).current as int, quote) is None
                    &&& final(self).tokens@ == old(self).tokens@
                }),
            },
    {
        let ghost src = self.source@;
        let ghost c0 = self.current as int;
        let ghost t0 = self.tokens@;
        let ghost s0 = self.start;
        let ghost l0u = self.line;
        let so = self.source;
        loop
            invariant_except_break
                self.wf(),
                self.source == so,
                self.source@ == src,
                self.tokens@ == t0,
                self.start == s0,
                self.line == l0u,
                so == old(self).source,
                src == old(self).source@,
                t0 == old(self).tokens@,
                s0 == old(self).start,
                l0u == old(self).line,
                c0 == old(self).current as int,
                c0 <= self.current as int <= src.len(),
                string_end(src, c0, quote) == string_end(src, self.current as int, quote),
            ensures
                self.wf(),
                self.source == so,
                self.source@ == src,
                self.tokens@ == t0,
                self.start == s0,
                self.line == l0u,
                c0 <= self.current as int,
                (self.current as int) < src.len(),
                src[self.current as int] == quote,
                string_end(src, c0, quote) == Some(self.current as int + 1),
            decreases src.len() - self.current,
        {
            if self.is_at_end() {
                proof {
                    assert(string_end(src, self.current as int, quote) is None);
                }
                return Err(LexError::raise());
            }
            let ch = self.peek();
            if ch == quote {
                proof {
                    assert(string_end(src, self.current as int, quote) == Some(
                        self.current as int + 1,
                    ));
                }
                break;
            }
            if ch == '\n' {
                proof {
                    assert(string_end(src, self.current as int, quote) is None);
                }
                return Err(LexError::raise());
            }
            let _ = self.advance();
        }
        // The closing quote
        let _ = self.advance();
        self.push(Token::StrLit);
        Ok(())
    }

    fn scan_token(&mut self) -> (r: Result<(), LexError>)
        requires
            old(self).wf(),
            old(self).current < old(self).source@.len(),
            old(self).start == old(self).current,
            old(self).source@.len() < usize::MAX,
        ensures
            final(self).wf(),
            final(self).source == old(self).source,
            old(self).current < final(self).current,
            old(self).tokens@.len() <= final(self).tokens@.len(),
            forall|k: int|
                0 <= k < old(self).tokens@.len() ==> final(self).tokens@[k] == old(
                    self,
                ).tokens@[k],
            match r {
                Ok(_) => scan_spec(
                    old(self).source@,
                    old(self).current as int,
                    old(self).line as nat,
                ) == prepend(
                    toks(final(self).tokens@).skip(old(self).tokens@.len() as int),
                    scan_spec(
                        old(self).source@,
                        final(self).current as int,
                        final(self).line as nat,
                    ),
                ),
                Err(_) => scan_spec(
                    old(self).source@,
                    old(self).current as int,
                    old(self).line as nat,
                ) is None,
            },
    {
        let ghost src = self.source@;
        let ghost i = self.current as int;
        let ghost l0 = self.line as nat;
        let ghost t0 = self.tokens@;
        let ghost n0 = self.tokens@.len() as int;
        let ghost s0 = self.start;
        let ghost l0u = self.line;
        let so = self.source;
        let c = self.advance();
        if c == '(' {
            // comment: ( ... )
            loop
                invariant_except_break
                    self.wf(),
                    self.source == so,
                    self.source@ == src,
                    self.tokens@ == t0,
                    self.start == s0,
                    self.line == l0u,
                    so == old(self).source,
                    src == old(self).source@,
                    t0 == old(self).tokens@,
                    s0 == old(self).start,
                    l0u == old(self).line,
                    l0 == old(self).line as nat,
                    n0 == old(self).tokens@.len() as int,
                    i == old(self).current as int,
                    0 <= i < src.len(),
                    src[i] == '(',
                    i + 1 <= self.current as int <= src.len(),
                    comment_end(src, i + 1) == comment_end(src, self.current as int),
                ensures
                    self.wf(),
                    self.source == so,
                    self.source@ == src,
                    self.tokens@ == t0,
                    self.start == s0,
                    self.line == l0u,
                    i + 1 <= self.current as int,
                    comment_end(src, i + 1) == Some(self.current as int),
                decreases src.len() - self.current,
            {
                if self.is_at_end() {
                    proof {
                        assert(comment_end(src, self.current as int) is None);
                        assert(scan_spec(src, i, l0) is None);
                    }
                    return Err(LexError::raise());
                }
                let ch = self.peek();
                if ch == '\n' {
                    proof {
                        assert(comment_end(src, self.current as int) is None);
                        assert(scan_spec(src, i, l0) is None);
                    }
                    return Err(LexError::raise());
                }
                let ghost cp = self.current as int;
                let _ = self.advance();
                if ch == ')' {
                    proof {
                        assert(comment_end(src, cp) == Some(cp + 1));
                    }
                    break;
                }
                proof {
                    assert(comment_end(src, cp) == comment_end(src, cp + 1));
                }
            }
            proof {
                lemma_prepend_empty(scan_spec(src, self.current as int, self.line as nat));
                assert(toks(self.tokens@).skip(n0) =~= Seq::<TokenInfo>::empty());
            }
            Ok(())
        } else if c == ';' {
            // comment: ; ...
            loop
                invariant_except_break
                    self.wf(),
                    self.source == so,
                    self.source@ == src,
                    self.tokens@ == t0,
                    self.start == s0,
                    self.line == l0u,
                    i + 1 <= self.current as int <= src.len(),
                    run_end(src, i + 1, not_newline_pred()) == run_end(
                        src,
                        self.current as int,
                        not_newline_pred(),
                    ),
                ensures
                    self.wf(),
                    self.source == so,
                    self.source@ == src,
                    self.tokens@ == t0,
                    self.start == s0,
                    self.line == l0u,
                    i + 1 <= self.current as int,
                    self.current as int == run_end(src, i + 1, not_newline_pred()),
                decreases src.len() - self.current,
            {
                if self.is_at_end() {
                    break;
                }
                let ch = self.peek();
                if ch == '\n' {
                    break;
                }
                let _ = self.advance();
            }
            proof {
                lemma_prepend_empty(scan_spec(src, self.current as int, self.line as nat));
                assert(toks(self.tokens@).skip(n0) =~= Seq::<TokenInfo>::empty());
            }
            Ok(())
        } else if c == '!' {
            self.push(Token::Bang);
            proof {
                assert(toks(self.tokens@).skip(n0) =~= seq![
                    TokenInfo { token: Token::Bang, lexeme: src.subrange(i, i + 1), line: l0 },
                ]);
            }
            Ok(())
        } else if c == ':' {
            self.push(Token::Colon);
            proof {
                assert(toks(self.tokens@).skip(n0) =~= seq![
                    TokenInfo { token: Token::Colon, lexeme: src.subrange(i, i + 1), line: l0 },
                ]);
            }
            Ok(())
        } else if c == 'R' {
            let pk = self.peek();
            if is_digit(pk) {
                self.register();
                proof {
                    assert(toks(self.tokens@).skip(n0) =~= seq![
                        TokenInfo {
                            token: Token::Reg,
                            lexeme: src.subrange(i, self.current as int),
                            line: l0,
                        },
                    ]);
                }
                Ok(())
            } else {
                self.opcode();
                proof {
                    assert(toks(self.tokens@).skip(n0) =~= seq![
                        TokenInfo {
                            token: Token::OpCode,
                            lexeme: src.subrange(i, self.current as int),
                            line: l0,
                        },
                    ]);
                }
                Ok(())
            }
        } else if c == ' ' || c == '\r' || c == '\t' {
            // Ignore whitespace.
            proof {
                lemma_prepend_empty(scan_spec(src, self.current as int, self.line as nat));
                assert(toks(self.tokens@).skip(n0) =~= Seq::<TokenInfo>::empty());
            }
            Ok(())
        } else if c == '\n' {
            self.push(Token::Ln);
            self.line = self.line + 1;
            proof {
                assert(toks(self.tokens@).skip(n0) =~= seq![
                    TokenInfo { token: Token::Ln, lexeme: src.subrange(i, i + 1), line: l0 },
                ]);
            }
            Ok(())
        } else if c == '"' {
            match self.string('"') {
                Ok(_) => {
                    proof {
                        assert(toks(self.tokens@).skip(n0) =~= seq![
                            TokenInfo {
                                token: Token::StrLit,
                                lexeme: src.subrange(i, self.current as int),
                                line: l0,
                            },
                        ]);
                    }
                    Ok(())
                },
                Err(e) => {
                    proof {
                        assert(scan_spec(src, i, l0) is None);
                    }
                    Err(e)
                },
            }
        } else if is_digit(c) {
            self.number();
            proof {
                assert(toks(self.tokens@).skip(n0) =~= seq![
                    TokenInfo {
                        token: Token::Number,
                        lexeme: src.subrange(i, self.current as int),
                        line: l0,
                    },
                ]);
            }
            Ok(())
        } else if is_upper(c) {
            self.opcode();
            proof {
                assert(toks(self.tokens@).skip(n0) =~= seq![
                    TokenInfo {
                        token: Token::OpCode,
                        lexeme: src.subrange(i, self.current as int),
                        line: l0,
                    },
                ]);
            }
            Ok(())
        } else if is_alpha(c) {
            self.symbol();
            proof {
                assert(toks(self.tokens@).skip(n0) =~= seq![
                    TokenInfo {
                        token: Token::Symbol,
                        lexeme: src.subrange(i, self.current as int),
                        line: l0,
                    },
                ]);
            }
            Ok(())
        } else {
            proof {
                assert(scan_spec(src, i, l0) is None);
            }
            Err(LexError::raise())
        }
    }

    /// Scan the remaining source, appending one token per lexeme and a final
    /// `Eof` sentinel, and return how many tokens the lexer now holds.
    /// Scanning succeeds exactly when [`scan_spec`] yields a sequence, and
    /// the appended tokens then match it one for one.
    pub fn scan(&mut self) -> (r: Result<usize, LexError>)
        requires
            old(self).wf(),
            old(self).source@.len() < usize::MAX,
        ensures
            final(self).wf(),
            final(self).source == old(self).source,
            match r {
                Ok(n) => scan_spec(
                    old(self).source@,
                    old(self).current as int,
                    old(self).line as nat,
                ) matches Some(ts) && toks(final(self).tokens@) == toks(old(self).tokens@) + ts
                    && n == final(self).tokens@.len() && final(self).tokens@.len() > 0
                    && final(self).tokens@.last()@.token == Token::Eof,
                Err(_) => scan_spec(
                    old(self).source@,
                    old(self).current as int,
                    old(self).line as nat,
                ) is None,
            },
    {
        let ghost src = self.source@;
        let ghost i0 = self.current as int;
        let ghost l0 = self.line as nat;
        let ghost t0 = self.tokens@;
        let ghost n0 = self.tokens@.len() as int;
        let so = self.source;
        loop
            invariant_except_break
                self.wf(),
                self.source == so,
                self.source@ == src,
                src.len() < usize::MAX,
                so == old(self).source,
                src == old(self).source@,
                t0 == old(self).tokens@,
                n0 == old(self).tokens@.len() as int,
                i0 == old(self).current as int,
                l0 == old(self).line as nat,
                n0 <= self.tokens@.len(),
                forall|k: int| 0 <= k < n0 ==> self.tokens@[k] == t0[k],
                prepend(
                    toks(self.tokens@).skip(n0),
                    scan_spec(src, self.current as int, self.line as nat),
                ) == scan_spec(src, i0, l0),
            ensures
                self.wf(),
                self.source == so,
                self.source@ == src,
                n0 <= self.tokens@.len(),
                forall|k: int| 0 <= k < n0 ==> self.tokens@[k] == t0[k],
                self.current as int == src.len(),
                prepend(
                    toks(self.tokens@).skip(n0),
                    scan_spec(src, self.current as int, self.line as nat),
                ) == scan_spec(src, i0, l0),
            decreases src.len() - self.current,
        {
            if self.is_at_end() {
                break;
            }
            self.start = self.current;
            let ghost t1 = self.tokens@;
            let ghost n1 = self.tokens@.len() as int;
            let ghost cur1 = self.current as int;
            let ghost line1 = self.line as nat;
            let res = self.scan_token();
            match res {
                Ok(_) => {
                    proof {
                        let acc = toks(t1).skip(n0);
                        let d = toks(self.tokens@).skip(n1);
                        lemma_prepend_assoc(
                            acc,
                            d,
                            scan_spec(src, self.current as int, self.line as nat),
                        );
                        assert(acc + d =~= toks(self.tokens@).skip(n0));
                    }
                },
                Err(e) => {
                    proof {
                        assert(scan_spec(src, cur1, line1) is None);
                        assert(scan_spec(src, i0, l0) is None);
                    }
                    return Err(e);
                },
            }
        }
        proof {
            reveal_strlit("");
            assert(scan_spec(src, self.current as int, self.line as nat) == Some(seq![
                TokenInfo { token: Token::Eof, lexeme: Seq::empty(), line: self.line as nat },
            ]));
        }
        let line_now = self.line;
        let ghost t_exit = self.tokens@;
        let eof_pos = Pos::new(Token::Eof, "", line_now);
        self.tokens.push(eof_pos);
        proof {
            assert(""@ =~= Seq::<char>::empty());
            let eof_info = TokenInfo {
                token: Token::Eof,
                lexeme: Seq::empty(),
                line: line_now as nat,
            };
            assert(eof_pos@ == eof_info);
            assert(scan_spec(src, i0, l0) == Some(toks(t_exit).skip(n0) + seq![eof_info]));
            assert(toks(self.tokens@) =~= toks(t0) + (toks(t_exit).skip(n0) + seq![eof_info]));
        }
        Ok(self.tokens.len())
    }
}

} // verus!
