//! The scanner: source text to a flat sequence of tokens with line numbers.

use vstd::prelude::*;

use crate::error;
use crate::report_text;
use crate::text::{chars_of, text, text_of};
use crate::token::{Literal, LiteralView, Token, TokenType, TokenView};

verus! {

/// `c` is a decimal digit.
pub open spec fn digit(c: char) -> bool {
    '0' <= c && c <= '9'
}

/// `c` may start an identifier: a letter or an underscore.
pub open spec fn alpha(c: char) -> bool {
    ('a' <= c && c <= 'z') || ('A' <= c && c <= 'Z') || c == '_'
}

/// `c` may continue an identifier.
pub open spec fn alpha_numeric(c: char) -> bool {
    alpha(c) || digit(c)
}

/// `c` is a decimal digit.
pub fn is_digit(c: char) -> (r: bool)
    ensures
        r == digit(c),
{
    c >= '0' && c <= '9'
}

/// `c` may start an identifier.
pub fn is_alpha(c: char) -> (r: bool)
    ensures
        r == alpha(c),
{
    (c >= 'a' && c <= 'z') || (c >= 'A' && c <= 'Z') || c == '_'
}

/// `c` may continue an identifier.
pub fn is_alpha_numeric(c: char) -> (r: bool)
    ensures
        r == alpha_numeric(c),
{
    is_alpha(c) || is_digit(c)
}

/// The reserved words and their token kinds.
pub open spec fn keyword_table() -> Seq<(Seq<char>, TokenType)> {
    seq![
        ("and"@, TokenType::AND),
        ("class"@, TokenType::CLASS),
        ("else"@, TokenType::ELSE),
        ("false"@, TokenType::FALSE),
        ("for"@, TokenType::FOR),
        ("fun"@, TokenType::FUN),
        ("if"@, TokenType::IF),
        ("nil"@, TokenType::NIL),
        ("or"@, TokenType::OR),
        ("print"@, TokenType::PRINT),
        ("return"@, TokenType::RETURN),
        ("super"@, TokenType::SUPER),
        ("this"@, TokenType::THIS),
        ("true"@, TokenType::TRUE),
        ("var"@, TokenType::VAR),
        ("while"@, TokenType::WHILE),
    ]
}

/// The kind that `table` gives to `word`, looking at its entries from
/// `from` on; `IDENTIFIER` if none of them is `word`.
pub open spec fn word_kind(table: Seq<(Seq<char>, TokenType)>, word: Seq<char>, from: int)
    -> TokenType
    decreases table.len() - from,
{
    if from < 0 || from >= table.len() {
        TokenType::IDENTIFIER
    } else if table[from].0 == word {
        table[from].1
    } else {
        word_kind(table, word, from + 1)
    }
}

/// The kind of a word: that of the reserved word it is, else `IDENTIFIER`.
pub open spec fn identifier_kind(word: Seq<char>) -> TokenType {
    word_kind(keyword_table(), word, 0)
}

/// The kind of a token that is the single character `c`, if there is one.
pub open spec fn single(c: char) -> Option<TokenType> {
    if c == '(' {
        Some(TokenType::LEFT_PAREN)
    } else if c == ')' {
        Some(TokenType::RIGHT_PAREN)
    } else if c == '{' {
        Some(TokenType::LEFT_BRACE)
    } else if c == '}' {
        Some(TokenType::RIGHT_BRACE)
    } else if c == ',' {
        Some(TokenType::COMMA)
    } else if c == '.' {
        Some(TokenType::DOT)
    } else if c == '-' {
        Some(TokenType::MINUS)
    } else if c == '+' {
        Some(TokenType::PLUS)
    } else if c == ';' {
        Some(TokenType::SEMICOLON)
    } else if c == '*' {
        Some(TokenType::STAR)
    } else if c == '%' {
        Some(TokenType::PERCENTAGE)
    } else {
        None
    }
}

/// The kind of an operator that starts with `c` and takes a following `=`
/// into itself: with the `=` if `followed`, alone if not.
pub open spec fn paired(c: char, followed: bool) -> Option<TokenType> {
    if c == '!' {
        Some(if followed { TokenType::BANG_EQUAL } else { TokenType::BANG })
    } else if c == '=' {
        Some(if followed { TokenType::EQUAL_EQUAL } else { TokenType::EQUAL })
    } else if c == '<' {
        Some(if followed { TokenType::LESS_EQUAL } else { TokenType::LESS })
    } else if c == '>' {
        Some(if followed { TokenType::GREATER_EQUAL } else { TokenType::GREATER })
    } else {
        None
    }
}

/// The line number after a line break on line `line`. It stops at the
/// largest number a line can have.
pub open spec fn next_line(line: u32) -> u32 {
    if line < u32::MAX {
        (line + 1) as u32
    } else {
        line
    }
}

/// The line number after the characters `src[from..to]`, read from line
/// `line` on.
pub open spec fn line_after(src: Seq<char>, from: int, to: int, line: u32) -> u32
    decreases to - from,
{
    if to <= from {
        line
    } else {
        let before = line_after(src, from, to - 1, line);
        if src[to - 1] == '\n' {
            next_line(before)
        } else {
            before
        }
    }
}

/// The first position at or after `from` that holds no digit.
pub open spec fn digits_end(src: Seq<char>, from: int) -> int
    decreases src.len() - from,
{
    if 0 <= from < src.len() && digit(src[from]) {
        digits_end(src, from + 1)
    } else {
        from
    }
}

/// The first position at or after `from` that cannot continue an identifier.
pub open spec fn word_end(src: Seq<char>, from: int) -> int
    decreases src.len() - from,
{
    if 0 <= from < src.len() && alpha_numeric(src[from]) {
        word_end(src, from + 1)
    } else {
        from
    }
}

/// The first position at or after `from` that holds a line break, or the
/// end of the text.
pub open spec fn line_end(src: Seq<char>, from: int) -> int
    decreases src.len() - from,
{
    if 0 <= from < src.len() && src[from] != '\n' {
        line_end(src, from + 1)
    } else {
        from
    }
}

/// The first position at or after `from` that holds a double quote, or the
/// end of the text.
pub open spec fn quote_at(src: Seq<char>, from: int) -> int
    decreases src.len() - from,
{
    if 0 <= from < src.len() && src[from] != '"' {
        quote_at(src, from + 1)
    } else {
        from
    }
}

/// Where a number that starts at `from` ends: after its digits and, if a
/// dot and a digit follow them, after the digits of the fraction.
pub open spec fn number_end(src: Seq<char>, from: int) -> int {
    let whole = digits_end(src, from);
    if whole + 1 < src.len() && src[whole] == '.' && digit(src[whole + 1]) {
        digits_end(src, whole + 1)
    } else {
        whole
    }
}

/// What the scanner makes of the text at one position.
pub struct Lexed {
    /// Where the next token starts.
    pub end: int,
    /// The line number there.
    pub line: u32,
    /// The token read, if the text was one.
    pub token: Option<TokenView>,
    /// The diagnostic given, if the text was an error.
    pub diagnostic: Option<Seq<char>>,
}

/// The token of kind `kind` that `src[from..to]` is.
pub open spec fn token_at(
    src: Seq<char>,
    kind: TokenType,
    from: int,
    to: int,
    literal: LiteralView,
    line: u32,
) -> TokenView {
    TokenView { kind, lexeme: src.subrange(from, to), literal, line }
}

/// A step over `src[pos..end]` that yields neither a token nor an error.
pub open spec fn skipped(end: int, line: u32) -> Lexed {
    Lexed { end, line, token: None, diagnostic: None }
}

/// A step that yields the token `token`.
pub open spec fn lexed(end: int, token: TokenView) -> Lexed {
    Lexed { end, line: token.line, token: Some(token), diagnostic: None }
}

/// The string literal that opens at `pos`: it runs to the next double
/// quote, over line breaks, and has the text between the quotes as its
/// value. With no closing quote the rest of the text is an error.
pub open spec fn lex_string(src: Seq<char>, pos: int, line: u32) -> Lexed {
    let close = quote_at(src, pos + 1);
    let line = line_after(src, pos + 1, close, line);
    if close >= src.len() {
        Lexed {
            end: close,
            line,
            token: None,
            diagnostic: Some(report_text(line, Seq::empty(), "Unterminated string."@)),
        }
    } else {
        lexed(
            close + 1,
            token_at(
                src,
                TokenType::STRING,
                pos,
                close + 1,
                LiteralView::Text(src.subrange(pos + 1, close)),
                line,
            ),
        )
    }
}

/// What stands at `pos` on line `line`: one token, or text to skip (white
/// space, a comment), or an error.
pub open spec fn lex(src: Seq<char>, pos: int, line: u32) -> Lexed
    recommends
        0 <= pos < src.len(),
{
    let c = src[pos];
    let followed = pos + 1 < src.len() && src[pos + 1] == '=';
    if single(c) is Some {
        lexed(pos + 1, token_at(src, single(c)->0, pos, pos + 1, LiteralView::Nil, line))
    } else if paired(c, followed) is Some {
        let end = if followed {
            pos + 2
        } else {
            pos + 1
        };
        lexed(end, token_at(src, paired(c, followed)->0, pos, end, LiteralView::Nil, line))
    } else if c == '/' {
        if pos + 1 < src.len() && src[pos + 1] == '/' {
            skipped(line_end(src, pos + 2), line)
        } else {
            lexed(pos + 1, token_at(src, TokenType::SLASH, pos, pos + 1, LiteralView::Nil, line))
        }
    } else if c == ' ' || c == '\r' || c == '\t' {
        skipped(pos + 1, line)
    } else if c == '\n' {
        skipped(pos + 1, next_line(line))
    } else if c == '"' {
        lex_string(src, pos, line)
    } else if digit(c) {
        let end = number_end(src, pos);
        lexed(
            end,
            token_at(
                src,
                TokenType::NUMBER,
                pos,
                end,
                LiteralView::Number(src.subrange(pos, end)),
                line,
            ),
        )
    } else if alpha(c) {
        let end = word_end(src, pos);
        lexed(
            end,
            token_at(
                src,
                identifier_kind(src.subrange(pos, end)),
                pos,
                end,
                LiteralView::Nil,
                line,
            ),
        )
    } else {
        Lexed {
            end: pos + 1,
            line,
            token: None,
            diagnostic: Some(report_text(line, Seq::empty(), "Unexpected character."@)),
        }
    }
}

/// A run of digits ends inside the text.
pub proof fn lemma_digits_end_bounds(src: Seq<char>, from: int)
    requires
        0 <= from <= src.len(),
    ensures
        from <= digits_end(src, from) <= src.len(),
    decreases src.len() - from,
{
    if from < src.len() && digit(src[from]) {
        lemma_digits_end_bounds(src, from + 1);
    }
}

/// A word ends inside the text.
pub proof fn lemma_word_end_bounds(src: Seq<char>, from: int)
    requires
        0 <= from <= src.len(),
    ensures
        from <= word_end(src, from) <= src.len(),
    decreases src.len() - from,
{
    if from < src.len() && alpha_numeric(src[from]) {
        lemma_word_end_bounds(src, from + 1);
    }
}

/// A line ends inside the text.
pub proof fn lemma_line_end_bounds(src: Seq<char>, from: int)
    requires
        0 <= from <= src.len(),
    ensures
        from <= line_end(src, from) <= src.len(),
    decreases src.len() - from,
{
    if from < src.len() && src[from] != '\n' {
        lemma_line_end_bounds(src, from + 1);
    }
}

/// The search for a quote ends inside the text.
pub proof fn lemma_quote_at_bounds(src: Seq<char>, from: int)
    requires
        0 <= from <= src.len(),
    ensures
        from <= quote_at(src, from) <= src.len(),
    decreases src.len() - from,
{
    if from < src.len() && src[from] != '"' {
        lemma_quote_at_bounds(src, from + 1);
    }
}

/// Every step of the scanner moves forward and stays inside the text.
pub proof fn lemma_lex_advances(src: Seq<char>, pos: int, line: u32)
    requires
        0 <= pos < src.len(),
    ensures
        pos < lex(src, pos, line).end <= src.len(),
{
    lemma_digits_end_bounds(src, pos + 1);
    let whole = digits_end(src, pos);
    if digit(src[pos]) {
        assert(whole == digits_end(src, pos + 1));
        if whole + 1 < src.len() {
            lemma_digits_end_bounds(src, whole + 1);
        }
    }
    lemma_word_end_bounds(src, pos + 1);
    lemma_quote_at_bounds(src, pos + 1);
    if pos + 1 < src.len() {
        lemma_line_end_bounds(src, pos + 2);
    }
}

/// The tokens and the diagnostics that a scan yields.
pub struct Scanned {
    pub tokens: Seq<TokenView>,
    pub diagnostics: Seq<Seq<char>>,
}

/// The view of a scanner's output after one more step `lexed`.
pub open spec fn after_step(before: Scanned, lexed: Lexed) -> Scanned {
    Scanned {
        tokens: match lexed.token {
            Some(t) => before.tokens.push(t),
            None => before.tokens,
        },
        diagnostics: match lexed.diagnostic {
            Some(d) => before.diagnostics.push(d),
            None => before.diagnostics,
        },
    }
}

/// The output of a scan of `src` from `pos` on line `line`, added to what
/// was found `before`: step by step to the end of the text, then the token
/// that marks the end.
pub open spec fn scan_from(src: Seq<char>, pos: int, line: u32, before: Scanned) -> Scanned
    decreases src.len() - pos,
{
    if 0 <= pos < src.len() {
        let step = lex(src, pos, line);
        proof {
            lemma_lex_advances(src, pos, line);
        }
        scan_from(src, step.end, step.line, after_step(before, step))
    } else {
        Scanned {
            tokens: before.tokens.push(
                TokenView {
                    kind: TokenType::EOF,
                    lexeme: Seq::empty(),
                    literal: LiteralView::Nil,
                    line,
                },
            ),
            diagnostics: before.diagnostics,
        }
    }
}

/// The tokens and diagnostics of the whole text `src`.
pub open spec fn scan(src: Seq<char>) -> Scanned {
    scan_from(src, 0, 1, Scanned { tokens: Seq::empty(), diagnostics: Seq::empty() })
}

/// The values of a sequence of tokens.
pub open spec fn tokens_view(tokens: Seq<Token>) -> Seq<TokenView> {
    tokens.map_values(|t: Token| t@)
}

/// The values of a sequence of texts.
pub open spec fn texts_view(texts: Seq<String>) -> Seq<Seq<char>> {
    texts.map_values(|t: String| t@)
}

/// The value of a table of reserved words.
pub open spec fn keywords_view(table: Seq<(String, TokenType)>) -> Seq<(Seq<char>, TokenType)> {
    table.map_values(|e: (String, TokenType)| (e.0@, e.1))
}

/// A scanner over a source text.
pub struct Scanner {
    pub source: Vec<char>,
    pub tokens: Vec<Token>,
    pub diagnostics: Vec<String>,
    pub start: usize,
    pub current: usize,
    pub line: u32,
    /// The reserved words with their kinds, as a list: of a hash map with
    /// `String` keys the verifier knows too little to prove a lookup.
    pub keywords: Vec<(String, TokenType)>,
}

impl Scanner {
    /// The scanner's positions lie inside the text and its table of
    /// reserved words is the language's.
    pub open spec fn wf(&self) -> bool {
        &&& self.start <= self.current <= self.source.len()
        &&& keywords_view(self.keywords@) == keyword_table()
    }

    /// What the scanner has found so far.
    pub open spec fn found(&self) -> Scanned {
        Scanned {
            tokens: tokens_view(self.tokens@),
            diagnostics: texts_view(self.diagnostics@),
        }
    }

    /// The scanner stands where `before` stood after the step `step`.
    pub open spec fn stepped(&self, before: &Scanner, step: Lexed) -> bool {
        &&& self.source == before.source
        &&& self.keywords == before.keywords
        &&& self.start == before.start
        &&& self.current == step.end
        &&& self.line == step.line
        &&& self.found() == after_step(before.found(), step)
    }

    /// A scanner at the start of `source`, on line 1, with nothing found.
    pub fn new(source: String) -> (s: Self)
        ensures
            s.wf(),
            s.source@ == source@,
            s.found() == (Scanned { tokens: Seq::empty(), diagnostics: Seq::empty() }),
            s.start == 0,
            s.current == 0,
            s.line == 1,
    {
        let mut keywords: Vec<(String, TokenType)> = Vec::new();
        keywords.push((text("and"), TokenType::AND));
        keywords.push((text("class"), TokenType::CLASS));
        keywords.push((text("else"), TokenType::ELSE));
        keywords.push((text("false"), TokenType::FALSE));
        keywords.push((text("for"), TokenType::FOR));
        keywords.push((text("fun"), TokenType::FUN));
        keywords.push((text("if"), TokenType::IF));
        keywords.push((text("nil"), TokenType::NIL));
        keywords.push((text("or"), TokenType::OR));
        keywords.push((text("print"), TokenType::PRINT));
        keywords.push((text("return"), TokenType::RETURN));
        keywords.push((text("super"), TokenType::SUPER));
        keywords.push((text("this"), TokenType::THIS));
        keywords.push((text("true"), TokenType::TRUE));
        keywords.push((text("var"), TokenType::VAR));
        keywords.push((text("while"), TokenType::WHILE));
        assert(keywords_view(keywords@) =~= keyword_table());
        let s = Scanner {
            source: chars_of(source.as_str()),
            tokens: Vec::new(),
            diagnostics: Vec::new(),
            start: 0,
            current: 0,
            line: 1,
            keywords,
        };
        assert(s.found().tokens =~= Seq::empty());
        assert(s.found().diagnostics =~= Seq::empty());
        s
    }

    /// Scans the rest of the text and hands out every token found, the
    /// end marker last: as `Ok` if no diagnostic was given, as `Err` if one
    /// was. The diagnostics stay in `self.diagnostics`.
    pub fn scan_tokens(&mut self) -> (r: Result<Vec<Token>, Vec<Token>>)
        requires
            old(self).wf(),
        ensures
            final(self).wf(),
            final(self).source == old(self).source,
            final(self).current == final(self).source.len(),
            final(self).tokens@.len() == 0,
            match r {
                Ok(tokens) => tokens@.len() > 0 && tokens@[tokens@.len() - 1].kind == TokenType::EOF,
                Err(tokens) => tokens@.len() > 0 && tokens@[tokens@.len() - 1].kind
                    == TokenType::EOF,
            },
            ({
                let all = scan_from(
                    old(self).source@,
                    old(self).current as int,
                    old(self).line,
                    old(self).found(),
                );
                &&& texts_view(final(self).diagnostics@) == all.diagnostics
                &&& match r {
                    Ok(tokens) => all.diagnostics.len() == 0 && tokens_view(tokens@) == all.tokens,
                    Err(tokens) => all.diagnostics.len() > 0 && tokens_view(tokens@) == all.tokens,
                }
            }),
    {
        while !self.is_at_end()
            invariant
                self.wf(),
                self.source == old(self).source,
                scan_from(self.source@, self.current as int, self.line, self.found()) == scan_from(
                    old(self).source@,
                    old(self).current as int,
                    old(self).line,
                    old(self).found(),
                ),
            decreases self.source.len() - self.current,
        {
            self.start = self.current;
            proof {
                lemma_lex_advances(self.source@, self.current as int, self.line);
            }
            self.scan_token();
        }
        let end = Token::new(TokenType::EOF, String::new(), Literal::Nil, self.line);
        self.tokens.push(end);
        assert(tokens_view(self.tokens@) =~= scan_from(
            old(self).source@,
            old(self).current as int,
            old(self).line,
            old(self).found(),
        ).tokens);
        let mut tokens: Vec<Token> = Vec::new();
        core::mem::swap(&mut tokens, &mut self.tokens);
        self.start = self.current;
        if self.diagnostics.len() == 0 {
            Ok(tokens)
        } else {
            Err(tokens)
        }
    }

    /// Reads what stands at the current position: one token, text to skip,
    /// or an error.
    pub fn scan_token(&mut self)
        requires
            old(self).wf(),
            old(self).start == old(self).current,
            old(self).current < old(self).source.len(),
        ensures
            final(self).wf(),
            final(self).stepped(
                old(self),
                lex(old(self).source@, old(self).current as int, old(self).line),
            ),
    {
        let ghost src = self.source@;
        let ghost pos = self.current as int;
        let c = self.advance();
        match Self::single_kind(c) {
            Some(kind) => {
                self.add_token_null(kind);
                return ;
            },
            None => {},
        }
        if c == '!' || c == '=' || c == '<' || c == '>' {
            let followed = self.match_char('=');
            let kind = if c == '!' {
                if followed {
                    TokenType::BANG_EQUAL
                } else {
                    TokenType::BANG
                }
            } else if c == '=' {
                if followed {
                    TokenType::EQUAL_EQUAL
                } else {
                    TokenType::EQUAL
                }
            } else if c == '<' {
                if followed {
                    TokenType::LESS_EQUAL
                } else {
                    TokenType::LESS
                }
            } else {
                if followed {
                    TokenType::GREATER_EQUAL
                } else {
                    TokenType::GREATER
                }
            };
            self.add_token_null(kind);
        } else if c == '/' {
            if self.match_char('/') {
                while self.peek() != '\n' && !self.is_at_end()
                    invariant
                        self.wf(),
                        src == self.source@,
                        self.source == old(self).source,
                        self.keywords == old(self).keywords,
                        self.tokens == old(self).tokens,
                        self.diagnostics == old(self).diagnostics,
                        self.line == old(self).line,
                        self.start == old(self).start,
                        pos + 2 <= self.current,
                        line_end(src, pos + 2) == line_end(src, self.current as int),
                    decreases self.source.len() - self.current,
                {
                    self.advance();
                }
            } else {
                self.add_token_null(TokenType::SLASH);
            }
        } else if c == ' ' || c == '\r' || c == '\t' {
        } else if c == '\n' {
            self.line = Self::line_break(self.line);
        } else if c == '"' {
            self.add_string();
        } else if is_digit(c) {
            self.add_number();
        } else if is_alpha(c) {
            self.add_identifier();
        } else {
            let message = text("Unexpected character.");
            let diagnostic = error(self.line, &message);
            self.add_diagnostic(diagnostic);
        }
    }

    fn single_kind(c: char) -> (r: Option<TokenType>)
        ensures
            r == single(c),
    {
        if c == '(' {
            Some(TokenType::LEFT_PAREN)
        } else if c == ')' {
            Some(TokenType::RIGHT_PAREN)
        } else if c == '{' {
            Some(TokenType::LEFT_BRACE)
        } else if c == '}' {
            Some(TokenType::RIGHT_BRACE)
        } else if c == ',' {
            Some(TokenType::COMMA)
        } else if c == '.' {
            Some(TokenType::DOT)
        } else if c == '-' {
            Some(TokenType::MINUS)
        } else if c == '+' {
            Some(TokenType::PLUS)
        } else if c == ';' {
            Some(TokenType::SEMICOLON)
        } else if c == '*' {
            Some(TokenType::STAR)
        } else if c == '%' {
            Some(TokenType::PERCENTAGE)
        } else {
            None
        }
    }

    fn line_break(line: u32) -> (r: u32)
        ensures
            r == next_line(line),
    {
        if line < u32::MAX {
            line + 1
        } else {
            line
        }
    }

    fn is_at_end(&self) -> (r: bool)
        ensures
            r == (self.current >= self.source.len()),
    {
        self.current >= self.source.len()
    }

    fn advance(&mut self) -> (c: char)
        requires
            old(self).current < old(self).source.len(),
        ensures
            c == old(self).source@[old(self).current as int],
            final(self).current == old(self).current + 1,
            final(self).source == old(self).source,
            final(self).keywords == old(self).keywords,
            final(self).tokens == old(self).tokens,
            final(self).diagnostics == old(self).diagnostics,
            final(self).line == old(self).line,
            final(self).start == old(self).start,
    {
        let c = self.get_current_char();
        self.current = self.current + 1;
        c
    }

    fn add_diagnostic(&mut self, diagnostic: String)
        ensures
            final(self).source == old(self).source,
            final(self).keywords == old(self).keywords,
            final(self).tokens == old(self).tokens,
            final(self).line == old(self).line,
            final(self).start == old(self).start,
            final(self).current == old(self).current,
            texts_view(final(self).diagnostics@) == texts_view(old(self).diagnostics@).push(
                diagnostic@,
            ),
    {
        self.diagnostics.push(diagnostic);
        assert(texts_view(self.diagnostics@) =~= texts_view(old(self).diagnostics@).push(
            diagnostic@,
        ));
    }

    /// Adds a token without a constant.
    fn add_token_null(&mut self, kind: TokenType)
        requires
            old(self).start <= old(self).current <= old(self).source.len(),
        ensures
            final(self).source == old(self).source,
            final(self).keywords == old(self).keywords,
            final(self).diagnostics == old(self).diagnostics,
            final(self).line == old(self).line,
            final(self).start == old(self).start,
            final(self).current == old(self).current,
            tokens_view(final(self).tokens@) == tokens_view(old(self).tokens@).push(
                token_at(
                    old(self).source@,
                    kind,
                    old(self).start as int,
                    old(self).current as int,
                    LiteralView::Nil,
                    old(self).line,
                ),
            ),
    {
        self.add_token(kind, Literal::Nil);
    }

    /// Adds the token that the text from `start` to `current` is.
    fn add_token(&mut self, kind: TokenType, literal: Literal)
        requires
            old(self).start <= old(self).current <= old(self).source.len(),
        ensures
            final(self).source == old(self).source,
            final(self).keywords == old(self).keywords,
            final(self).diagnostics == old(self).diagnostics,
            final(self).line == old(self).line,
            final(self).start == old(self).start,
            final(self).current == old(self).current,
            tokens_view(final(self).tokens@) == tokens_view(old(self).tokens@).push(
                token_at(
                    old(self).source@,
                    kind,
                    old(self).start as int,
                    old(self).current as int,
                    literal@,
                    old(self).line,
                ),
            ),
    {
        let lexeme = text_of(&self.source, self.start, self.current);
        let token = Token::new(kind, lexeme, literal, self.line);
        self.tokens.push(token);
        assert(tokens_view(self.tokens@) =~= tokens_view(old(self).tokens@).push(token@));
    }

    /// Takes the next character if it is `expected`.
    fn match_char(&mut self, expected: char) -> (r: bool)
        requires
            old(self).current <= old(self).source.len(),
        ensures
            r == (old(self).current < old(self).source.len() && old(self).source@[old(
                self,
            ).current as int] == expected),
            final(self).current == if r {
                old(self).current + 1
            } else {
                old(self).current as int
            },
            final(self).source == old(self).source,
            final(self).keywords == old(self).keywords,
            final(self).tokens == old(self).tokens,
            final(self).diagnostics == old(self).diagnostics,
            final(self).line == old(self).line,
            final(self).start == old(self).start,
    {
        if self.is_at_end() {
            false
        } else if self.get_current_char() != expected {
            false
        } else {
            self.current += 1;
            true
        }
    }

    /// The next character, or the null character at the end of the text.
    fn peek(&self) -> (c: char)
        ensures
            c == if self.current < self.source.len() {
                self.source@[self.current as int]
            } else {
                '\0'
            },
    {
        if self.is_at_end() {
            return '\0';
        }
        self.get_current_char()
    }

    /// The character after the next, or the null character.
    fn peek_next(&self) -> (c: char)
        requires
            self.current <= self.source.len(),
        ensures
            c == if self.current + 1 < self.source.len() {
                self.source@[self.current + 1]
            } else {
                '\0'
            },
    {
        if self.current >= self.source.len() || self.current + 1 >= self.source.len() {
            return '\0';
        }
        self.source[self.current + 1]
    }

    fn get_current_char(&self) -> (c: char)
        requires
            self.current < self.source.len(),
        ensures
            c == self.source@[self.current as int],
    {
        self.source[self.current]
    }

    /// Reads a string literal whose opening quote was just taken.
    fn add_string(&mut self)
        requires
            old(self).wf(),
            old(self).start + 1 == old(self).current,
            old(self).source@[old(self).start as int] == '"',
        ensures
            final(self).wf(),
            final(self).stepped(
                old(self),
                lex_string(old(self).source@, old(self).start as int, old(self).line),
            ),
    {
        let ghost src = self.source@;
        let ghost pos = self.start as int;
        while self.peek() != '"' && !self.is_at_end()
            invariant
                self.wf(),
                src == self.source@,
                self.source == old(self).source,
                self.keywords == old(self).keywords,
                self.tokens == old(self).tokens,
                self.diagnostics == old(self).diagnostics,
                self.start == old(self).start,
                pos + 1 <= self.current,
                quote_at(src, pos + 1) == quote_at(src, self.current as int),
                self.line == line_after(src, pos + 1, self.current as int, old(self).line),
            decreases self.source.len() - self.current,
        {
            if self.peek() == '\n' {
                self.line = Self::line_break(self.line);
            }
            self.advance();
        }
        if self.is_at_end() {
            let message = text("Unterminated string.");
            let diagnostic = error(self.line, &message);
            self.add_diagnostic(diagnostic);
            return ;
        }
        self.advance();
        let value = text_of(&self.source, self.start + 1, self.current - 1);
        self.add_token(TokenType::STRING, Literal::Text(value));
    }

    /// Reads a number whose first digit was just taken.
    fn add_number(&mut self)
        requires
            old(self).wf(),
            old(self).start + 1 == old(self).current,
            digit(old(self).source@[old(self).start as int]),
        ensures
            final(self).wf(),
            final(self).stepped(
                old(self),
                lex(old(self).source@, old(self).start as int, old(self).line),
            ),
    {
        let ghost src = self.source@;
        let ghost pos = self.start as int;
        while is_digit(self.peek())
            invariant
                self.wf(),
                src == self.source@,
                self.source == old(self).source,
                self.keywords == old(self).keywords,
                self.tokens == old(self).tokens,
                self.diagnostics == old(self).diagnostics,
                self.start == old(self).start,
                self.line == old(self).line,
                pos + 1 <= self.current,
                digits_end(src, pos) == digits_end(src, self.current as int),
            decreases self.source.len() - self.current,
        {
            self.advance();
        }
        if self.peek() == '.' && is_digit(self.peek_next()) {
            self.advance();
            while is_digit(self.peek())
                invariant
                    self.wf(),
                    src == self.source@,
                    self.source == old(self).source,
                    self.keywords == old(self).keywords,
                    self.tokens == old(self).tokens,
                    self.diagnostics == old(self).diagnostics,
                    self.start == old(self).start,
                    self.line == old(self).line,
                    digits_end(src, pos) + 1 <= self.current,
                    number_end(src, pos) == digits_end(src, self.current as int),
                decreases self.source.len() - self.current,
            {
                self.advance();
            }
        }
        let value = text_of(&self.source, self.start, self.current);
        self.add_token(TokenType::NUMBER, Literal::Number(value));
    }

    /// Reads an identifier or a reserved word whose first character was
    /// just taken.
    fn add_identifier(&mut self)
        requires
            old(self).wf(),
            old(self).start + 1 == old(self).current,
            alpha(old(self).source@[old(self).start as int]),
        ensures
            final(self).wf(),
            final(self).stepped(
                old(self),
                lex(old(self).source@, old(self).start as int, old(self).line),
            ),
    {
        let ghost src = self.source@;
        let ghost pos = self.start as int;
        while is_alpha_numeric(self.peek())
            invariant
                self.wf(),
                src == self.source@,
                self.source == old(self).source,
                self.keywords == old(self).keywords,
                self.tokens == old(self).tokens,
                self.diagnostics == old(self).diagnostics,
                self.start == old(self).start,
                self.line == old(self).line,
                pos + 1 <= self.current,
                word_end(src, pos) == word_end(src, self.current as int),
            decreases self.source.len() - self.current,
        {
            self.advance();
        }
        let word = text_of(&self.source, self.start, self.current);
        let kind = self.keyword(&word);
        self.add_token_null(kind);
    }

    /// The kind of the word `word`.
    fn keyword(&self, word: &String) -> (kind: TokenType)
        requires
            self.wf(),
        ensures
            kind == identifier_kind(word@),
    {
        let mut i: usize = 0;
        while i < self.keywords.len()
            invariant
                self.wf(),
                i <= self.keywords.len(),
                identifier_kind(word@) == word_kind(keyword_table(), word@, i as int),
            decreases self.keywords.len() - i,
        {
            assert(keywords_view(self.keywords@)[i as int] == (
                self.keywords@[i as int].0@,
                self.keywords@[i as int].1,
            ));
            if self.keywords[i].0 == *word {
                return self.keywords[i].1;
            }
            i = i + 1;
        }
        TokenType::IDENTIFIER
    }
}

} // verus!
