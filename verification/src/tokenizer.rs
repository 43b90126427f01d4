//! The tokenizer: from source text to tokens.
//!
//! What the tokenizer gives is defined by [`lex`], a function on the sequence of
//! characters; [`Tokenizer::tokenize`] computes it.

use vstd::prelude::*;
use vstd::string::StrSliceExecFns;
use crate::error::ErrorType;
use crate::token::{token_views, Literal, LiteralView, Token, TokenType, TokenView};

verus! {

/// Whether `c` is a decimal digit.
pub open spec fn is_digit(c: char) -> bool {
    '0' <= c && c <= '9'
}

/// Whether `c` can start a name: a letter of the basic alphabet or an underscore.
pub open spec fn is_letter(c: char) -> bool {
    ('a' <= c && c <= 'z') || ('A' <= c && c <= 'Z') || c == '_'
}

/// Whether `c` can continue a name.
pub open spec fn is_word_char(c: char) -> bool {
    is_letter(c) || is_digit(c)
}

/// Whether `c` separates tokens without being one.
pub open spec fn is_blank(c: char) -> bool {
    c == ' ' || c == '\t' || c == '\r' || c == '\n'
}

/// The line after `line`. Line numbers stop at the largest `usize`.
pub open spec fn next_line(line: usize) -> usize {
    if line < usize::MAX {
        (line + 1) as usize
    } else {
        line
    }
}

/// Where the longest run of digits that starts at `i` ends.
pub open spec fn digits_end(src: Seq<char>, i: int) -> int
    decreases src.len() - i,
{
    if 0 <= i < src.len() && is_digit(src[i]) {
        digits_end(src, i + 1)
    } else {
        i
    }
}

/// Where the longest run of name characters that starts at `i` ends.
pub open spec fn word_end(src: Seq<char>, i: int) -> int
    decreases src.len() - i,
{
    if 0 <= i < src.len() && is_word_char(src[i]) {
        word_end(src, i + 1)
    } else {
        i
    }
}

/// The position of the first double quote at or after `i`; the length of the text
/// where there is none.
pub open spec fn quote_at(src: Seq<char>, i: int) -> int
    decreases src.len() - i,
{
    if 0 <= i < src.len() && src[i] != '"' {
        quote_at(src, i + 1)
    } else {
        i
    }
}

/// The line reached from `line` by passing over the characters from `from` up to,
/// not including, `to`.
pub open spec fn line_after(src: Seq<char>, from: int, to: int, line: usize) -> usize
    decreases to - from,
{
    if 0 <= from < to && from < src.len() {
        line_after(
            src,
            from + 1,
            to,
            if src[from] == '\n' {
                next_line(line)
            } else {
                line
            },
        )
    } else {
        line
    }
}

/// Where the numeral that starts at `i` ends: after its digits, and after a point
/// and more digits where these follow.
pub open spec fn number_end(src: Seq<char>, i: int) -> int {
    let whole = digits_end(src, i);
    if whole + 1 < src.len() && src[whole] == '.' && is_digit(src[whole + 1]) {
        digits_end(src, whole + 1)
    } else {
        whole
    }
}

/// The keyword that `text` spells, if it spells one.
pub open spec fn keyword(text: Seq<char>) -> Option<TokenType> {
    if text == "and"@ {
        Some(TokenType::And)
    } else if text == "break"@ {
        Some(TokenType::Break)
    } else if text == "else"@ {
        Some(TokenType::Else)
    } else if text == "false"@ {
        Some(TokenType::False)
    } else if text == "for"@ {
        Some(TokenType::For)
    } else if text == "func"@ {
        Some(TokenType::Func)
    } else if text == "if"@ {
        Some(TokenType::If)
    } else if text == "null"@ {
        Some(TokenType::Null)
    } else if text == "or"@ {
        Some(TokenType::Or)
    } else if text == "print"@ {
        Some(TokenType::Print)
    } else if text == "return"@ {
        Some(TokenType::Return)
    } else if text == "true"@ {
        Some(TokenType::True)
    } else if text == "var"@ {
        Some(TokenType::Var)
    } else if text == "while"@ {
        Some(TokenType::While)
    } else {
        None
    }
}

/// The kind of the token that the single character `c` spells, if it spells one.
pub open spec fn single_symbol(c: char) -> Option<TokenType> {
    if c == '(' {
        Some(TokenType::LeftParen)
    } else if c == ')' {
        Some(TokenType::RightParen)
    } else if c == '{' {
        Some(TokenType::LeftCurly)
    } else if c == '}' {
        Some(TokenType::RightCurly)
    } else if c == '[' {
        Some(TokenType::LeftSquare)
    } else if c == ']' {
        Some(TokenType::RightSquare)
    } else if c == ',' {
        Some(TokenType::Comma)
    } else if c == ':' {
        Some(TokenType::Colon)
    } else if c == ';' {
        Some(TokenType::Semicolon)
    } else if c == '+' {
        Some(TokenType::Plus)
    } else if c == '-' {
        Some(TokenType::Minus)
    } else if c == '*' {
        Some(TokenType::Star)
    } else if c == '/' {
        Some(TokenType::Slash)
    } else if c == '%' {
        Some(TokenType::Percent)
    } else if c == '!' {
        Some(TokenType::Bang)
    } else if c == '=' {
        Some(TokenType::Equal)
    } else if c == '>' {
        Some(TokenType::Greater)
    } else if c == '<' {
        Some(TokenType::Less)
    } else {
        None
    }
}

/// The kind of the token that `c` and a following `=` spell together, if they spell
/// one.
pub open spec fn double_symbol(c: char) -> Option<TokenType> {
    if c == '!' {
        Some(TokenType::BangEqual)
    } else if c == '=' {
        Some(TokenType::EqualEqual)
    } else if c == '>' {
        Some(TokenType::GreaterEqual)
    } else if c == '<' {
        Some(TokenType::LessEqual)
    } else {
        None
    }
}

/// What the tokenizer finds at one position.
pub enum Piece {
    /// A token.
    Token(TokenView),
    /// Something that is no token.
    Error(ErrorType),
    /// Space between tokens.
    Blank,
}

/// What the tokenizer finds at one position, where the next position is, and the
/// line reached there.
pub struct Step {
    pub piece: Piece,
    pub end: int,
    pub line: usize,
}

/// A token without a constant, read from `src` between `from` and `to`.
pub open spec fn plain_token(src: Seq<char>, from: int, to: int, kind: TokenType, line: usize)
    -> TokenView {
    TokenView { type_: kind, lexeme: src.subrange(from, to), literal: LiteralView::Null, line }
}

/// The token that ends every token sequence.
pub open spec fn eof_token(line: usize) -> TokenView {
    TokenView { type_: TokenType::Eof, lexeme: Seq::empty(), literal: LiteralView::Null, line }
}

/// What stands at position `i` of `src`, a position inside the text, when the line
/// there is `line`.
///
/// - A blank is passed over; a line feed starts the next line.
/// - A digit starts a numeral; the token's constant is the numeral's text.
/// - A letter or an underscore starts a word: a keyword, or else an identifier.
/// - A double quote starts a string, which runs to the next double quote and may
///   hold line feeds; the token's text holds the quotes, its constant does not, and
///   its line is the one the string ends on. Without a closing quote the rest of the
///   text is an unterminated string.
/// - `!`, `=`, `<` and `>` form one token with a `=` that follows at once.
/// - Any other character that is no token by itself is an unexpected character.
pub open spec fn step(src: Seq<char>, i: int, line: usize) -> Step {
    let c = src[i];
    if c == '\n' {
        Step { piece: Piece::Blank, end: i + 1, line: next_line(line) }
    } else if is_blank(c) {
        Step { piece: Piece::Blank, end: i + 1, line }
    } else if is_digit(c) {
        let end = number_end(src, i);
        Step {
            piece: Piece::Token(
                TokenView {
                    type_: TokenType::Number,
                    lexeme: src.subrange(i, end),
                    literal: LiteralView::Number(src.subrange(i, end)),
                    line,
                },
            ),
            end,
            line,
        }
    } else if is_letter(c) {
        let end = word_end(src, i);
        let kind = match keyword(src.subrange(i, end)) {
            Some(k) => k,
            None => TokenType::Identifier,
        };
        Step { piece: Piece::Token(plain_token(src, i, end, kind, line)), end, line }
    } else if c == '"' {
        let close = quote_at(src, i + 1);
        let reached = line_after(src, i + 1, close, line);
        if close < src.len() {
            Step {
                piece: Piece::Token(
                    TokenView {
                        type_: TokenType::String_,
                        lexeme: src.subrange(i, close + 1),
                        literal: LiteralView::String_(src.subrange(i + 1, close)),
                        line: reached,
                    },
                ),
                end: close + 1,
                line: reached,
            }
        } else {
            Step { piece: Piece::Error(ErrorType::UnterminatedString), end: close, line: reached }
        }
    } else if double_symbol(c) is Some && i + 1 < src.len() && src[i + 1] == '=' {
        Step {
            piece: Piece::Token(plain_token(src, i, i + 2, double_symbol(c)->0, line)),
            end: i + 2,
            line,
        }
    } else if single_symbol(c) is Some {
        Step {
            piece: Piece::Token(plain_token(src, i, i + 1, single_symbol(c)->0, line)),
            end: i + 1,
            line,
        }
    } else {
        Step {
            piece: Piece::Error(ErrorType::UnexpectedCharacter { character: c, line }),
            end: i + 1,
            line,
        }
    }
}

/// The tokens and the errors of a text, each in the order of the text.
pub struct Lexed {
    pub tokens: Seq<TokenView>,
    pub errors: Seq<ErrorType>,
}

/// The tokens and errors of `src` from position `i` on, when the line there is
/// `line`. The tokens end with the end-of-text token.
pub open spec fn lex_from(src: Seq<char>, i: int, line: usize) -> Lexed
    decreases src.len() - i,
{
    if 0 <= i < src.len() {
        let found = step(src, i, line);
        proof {
            lemma_step_advances(src, i, line);
        }
        let rest = lex_from(src, found.end, found.line);
        match found.piece {
            Piece::Token(token) => Lexed { tokens: seq![token] + rest.tokens, errors: rest.errors },
            Piece::Error(error) => Lexed { tokens: rest.tokens, errors: seq![error] + rest.errors },
            Piece::Blank => rest,
        }
    } else {
        Lexed { tokens: seq![eof_token(line)], errors: Seq::empty() }
    }
}

/// The tokens and errors of a whole text. Lines are counted from 1.
pub open spec fn lex(src: Seq<char>) -> Lexed {
    lex_from(src, 0, 1)
}

/// A run of digits ends between its start and the end of the text.
pub proof fn lemma_digits_end_bounds(src: Seq<char>, i: int)
    requires
        0 <= i <= src.len(),
    ensures
        i <= digits_end(src, i) <= src.len(),
        i < src.len() && is_digit(src[i]) ==> i < digits_end(src, i),
    decreases src.len() - i,
{
    if i < src.len() && is_digit(src[i]) {
        lemma_digits_end_bounds(src, i + 1);
    }
}

/// A run of name characters ends between its start and the end of the text.
pub proof fn lemma_word_end_bounds(src: Seq<char>, i: int)
    requires
        0 <= i <= src.len(),
    ensures
        i <= word_end(src, i) <= src.len(),
        i < src.len() && is_word_char(src[i]) ==> i < word_end(src, i),
    decreases src.len() - i,
{
    if i < src.len() && is_word_char(src[i]) {
        lemma_word_end_bounds(src, i + 1);
    }
}

/// The next double quote is found between the start of the search and the end of
/// the text.
pub proof fn lemma_quote_at_bounds(src: Seq<char>, i: int)
    requires
        0 <= i <= src.len(),
    ensures
        i <= quote_at(src, i) <= src.len(),
    decreases src.len() - i,
{
    if i < src.len() && src[i] != '"' {
        lemma_quote_at_bounds(src, i + 1);
    }
}

/// Every step of the tokenizer moves forward and stays inside the text.
pub proof fn lemma_step_advances(src: Seq<char>, i: int, line: usize)
    requires
        0 <= i < src.len(),
    ensures
        i < step(src, i, line).end <= src.len(),
{
    lemma_digits_end_bounds(src, i);
    let whole = digits_end(src, i);
    if whole + 1 < src.len() {
        lemma_digits_end_bounds(src, whole + 1);
    }
    lemma_word_end_bounds(src, i);
    lemma_quote_at_bounds(src, i + 1);
}

/// Reads source text into tokens.
pub struct Tokenizer {
    source: String,
    chars: Vec<char>,
}

impl View for Tokenizer {
    type V = Seq<char>;

    /// The text that the tokenizer reads.
    closed spec fn view(&self) -> Seq<char> {
        self.source@
    }
}

impl Tokenizer {
    #[verifier::type_invariant]
    spec fn consistent(&self) -> bool {
        self.chars@ == self.source@
    }

    /// A tokenizer for `source`.
    pub fn new(source: &str) -> (tokenizer: Tokenizer)
        ensures
            tokenizer@ == source@,
    {
        let mut chars: Vec<char> = Vec::new();
        for c in it: source.chars()
            invariant
                chars@.len() == it.index(),
                forall|k: int| 0 <= k < chars@.len() ==> chars@[k] == it.seq()[k],
        {
            chars.push(c);
        }
        assert(chars@ =~= source@);
        Tokenizer { source: source.to_owned(), chars }
    }

    /// The piece of the text between `from` and `to`, as a string of its own.
    fn slice(&self, from: usize, to: usize, ascii: bool) -> (text: String)
        requires
            from <= to <= self@.len(),
            ascii ==> vstd::utf8::is_ascii_chars(self@),
        ensures
            text@ == self@.subrange(from as int, to as int),
    {
        let source = self.source.as_str();
        if ascii {
            source.substring_ascii(from, to).to_owned()
        } else {
            source.substring_char(from, to).to_owned()
        }
    }

    /// Whether the piece of the text between `from` and `to` is `word`.
    fn is_word(&self, from: usize, to: usize, word: &str) -> (same: bool)
        requires
            from <= to <= self@.len(),
        ensures
            same == (self@.subrange(from as int, to as int) == word@),
    {
        proof {
            use_type_invariant(self);
        }
        let n = word.unicode_len();
        if to - from != n {
            return false;
        }
        let mut k: usize = 0;
        while k < n
            invariant
                k <= n,
                n == word@.len(),
                n == to - from,
                from <= to <= self.chars@.len(),
                self.chars@ == self@,
                forall|j: int| 0 <= j < k ==> self.chars@[from + j] == word@[j],
            decreases n - k,
        {
            if self.chars[from + k] != word.get_char(k) {
                assert(self@.subrange(from as int, to as int)[k as int] != word@[k as int]);
                return false;
            }
            k += 1;
        }
        assert(self@.subrange(from as int, to as int) =~= word@);
        true
    }

    /// The kind of the word between `from` and `to`.
    fn word_kind(&self, from: usize, to: usize) -> (kind: TokenType)
        requires
            from <= to <= self@.len(),
        ensures
            kind == match keyword(self@.subrange(from as int, to as int)) {
                Some(k) => k,
                None => TokenType::Identifier,
            },
    {
        if self.is_word(from, to, "and") {
            TokenType::And
        } else if self.is_word(from, to, "break") {
            TokenType::Break
        } else if self.is_word(from, to, "else") {
            TokenType::Else
        } else if self.is_word(from, to, "false") {
            TokenType::False
        } else if self.is_word(from, to, "for") {
            TokenType::For
        } else if self.is_word(from, to, "func") {
            TokenType::Func
        } else if self.is_word(from, to, "if") {
            TokenType::If
        } else if self.is_word(from, to, "null") {
            TokenType::Null
        } else if self.is_word(from, to, "or") {
            TokenType::Or
        } else if self.is_word(from, to, "print") {
            TokenType::Print
        } else if self.is_word(from, to, "return") {
            TokenType::Return
        } else if self.is_word(from, to, "true") {
            TokenType::True
        } else if self.is_word(from, to, "var") {
            TokenType::Var
        } else if self.is_word(from, to, "while") {
            TokenType::While
        } else {
            TokenType::Identifier
        }
    }

    /// Where the run of digits that starts at `from` ends.
    fn digits_end(&self, from: usize) -> (end: usize)
        requires
            from <= self@.len(),
        ensures
            end == digits_end(self@, from as int),
            from <= end <= self@.len(),
    {
        proof {
            use_type_invariant(self);
            lemma_digits_end_bounds(self@, from as int);
        }
        let mut end = from;
        while end < self.chars.len() && digit(self.chars[end])
            invariant
                from <= end <= self.chars@.len(),
                self.chars@ == self@,
                digits_end(self@, end as int) == digits_end(self@, from as int),
            decreases self.chars@.len() - end,
        {
            end += 1;
        }
        end
    }

    /// Where the numeral that starts at `from` ends.
    fn number_end(&self, from: usize) -> (end: usize)
        requires
            from < self@.len(),
            is_digit(self@[from as int]),
        ensures
            end == number_end(self@, from as int),
            from < end <= self@.len(),
    {
        proof {
            use_type_invariant(self);
            lemma_digits_end_bounds(self@, from as int);
        }
        let whole = self.digits_end(from);
        if whole < self.chars.len() && self.chars.len() - whole > 1 && self.chars[whole] == '.'
            && digit(self.chars[whole + 1]) {
            self.digits_end(whole + 1)
        } else {
            whole
        }
    }

    /// Where the run of name characters that starts at `from` ends.
    fn word_end(&self, from: usize) -> (end: usize)
        requires
            from < self@.len(),
            is_letter(self@[from as int]),
        ensures
            end == word_end(self@, from as int),
            from < end <= self@.len(),
    {
        proof {
            use_type_invariant(self);
            lemma_word_end_bounds(self@, from as int);
        }
        let mut end = from;
        while end < self.chars.len() && (letter(self.chars[end]) || digit(self.chars[end]))
            invariant
                from <= end <= self.chars@.len(),
                self.chars@ == self@,
                word_end(self@, end as int) == word_end(self@, from as int),
            decreases self.chars@.len() - end,
        {
            end += 1;
        }
        end
    }

    /// Where the next double quote at or after `from` stands, and the line reached
    /// there from `line`.
    fn string_end(&self, from: usize, line: usize) -> (found: (usize, usize))
        requires
            from <= self@.len(),
        ensures
            found.0 == quote_at(self@, from as int),
            found.1 == line_after(self@, from as int, found.0 as int, line),
            from <= found.0 <= self@.len(),
    {
        proof {
            use_type_invariant(self);
            lemma_quote_at_bounds(self@, from as int);
        }
        let mut end = from;
        let mut reached = line;
        while end < self.chars.len() && self.chars[end] != '"'
            invariant
                from <= end <= self.chars@.len(),
                self.chars@ == self@,
                quote_at(self@, end as int) == quote_at(self@, from as int),
                end <= quote_at(self@, from as int) <= self@.len(),
                line_after(self@, end as int, quote_at(self@, from as int), reached)
                    == line_after(self@, from as int, quote_at(self@, from as int), line),
            decreases self.chars@.len() - end,
        {
            proof {
                lemma_quote_at_bounds(self@, end as int + 1);
            }
            if self.chars[end] == '\n' {
                reached = following_line(reached);
            }
            end += 1;
        }
        (end, reached)
    }

    /// The tokens of the text, in its order and with the end-of-text token last; or,
    /// where the text holds anything that is no token, every such error in the order
    /// of the text.
    pub fn tokenize(&self) -> (result: Result<Vec<Token>, Vec<ErrorType>>)
        ensures
            match result {
                Ok(tokens) => {
                    &&& lex(self@).errors.len() == 0
                    &&& token_views(tokens@) == lex(self@).tokens
                    &&& tokens@.len() > 0
                    &&& tokens@.last().type_ == TokenType::Eof
                },
                Err(errors) => errors@.len() > 0 && errors@ == lex(self@).errors,
            },
    {
        proof {
            use_type_invariant(self);
        }
        let ascii = self.source.as_str().is_ascii();
        let n = self.chars.len();
        let mut tokens: Vec<Token> = Vec::new();
        let mut errors: Vec<ErrorType> = Vec::new();
        let mut i: usize = 0;
        let mut line: usize = 1;
        assert(token_views(tokens@) + lex_from(self@, 0, 1).tokens =~= lex(self@).tokens);
        assert(errors@ + lex_from(self@, 0, 1).errors =~= lex(self@).errors);
        while i < n
            invariant
                i <= n,
                n == self@.len(),
                self.chars@ == self@,
                ascii ==> vstd::utf8::is_ascii_chars(self@),
                token_views(tokens@) + lex_from(self@, i as int, line).tokens == lex(self@).tokens,
                errors@ + lex_from(self@, i as int, line).errors == lex(self@).errors,
            decreases n - i,
        {
            let ghost found = step(self@, i as int, line);
            let ghost rest = lex_from(self@, found.end, found.line);
            let ghost before = token_views(tokens@);
            let ghost errors_before = errors@;
            proof {
                lemma_step_advances(self@, i as int, line);
            }
            let c = self.chars[i];
            if c == '\n' {
                line = following_line(line);
                i += 1;
            } else if c == ' ' || c == '\t' || c == '\r' {
                i += 1;
            } else if digit(c) {
                let end = self.number_end(i);
                let token = Token {
                    type_: TokenType::Number,
                    lexeme: self.slice(i, end, ascii),
                    literal: Literal::Number(self.slice(i, end, ascii)),
                    line,
                };
                proof {
                    lemma_push_token(tokens@, token);
                }
                tokens.push(token);
                i = end;
            } else if letter(c) {
                let end = self.word_end(i);
                let token = Token {
                    type_: self.word_kind(i, end),
                    lexeme: self.slice(i, end, ascii),
                    literal: Literal::Null,
                    line,
                };
                proof {
                    lemma_push_token(tokens@, token);
                }
                tokens.push(token);
                i = end;
            } else if c == '"' {
                let (close, reached) = self.string_end(i + 1, line);
                if close < n {
                    let token = Token {
                        type_: TokenType::String_,
                        lexeme: self.slice(i, close + 1, ascii),
                        literal: Literal::String_(self.slice(i + 1, close, ascii)),
                        line: reached,
                    };
                    proof {
                        lemma_push_token(tokens@, token);
                    }
                    tokens.push(token);
                    i = close + 1;
                } else {
                    errors.push(ErrorType::UnterminatedString);
                    i = close;
                }
                line = reached;
            } else {
                let followed = n - i > 1 && self.chars[i + 1] == '=';
                match symbol(c, followed) {
                    Some(kind) => {
                        let end = if followed && double(c) {
                            i + 2
                        } else {
                            i + 1
                        };
                        let token = Token {
                            type_: kind,
                            lexeme: self.slice(i, end, ascii),
                            literal: Literal::Null,
                            line,
                        };
                        proof {
                            lemma_push_token(tokens@, token);
                        }
                        tokens.push(token);
                        i = end;
                    },
                    None => {
                        errors.push(ErrorType::UnexpectedCharacter { character: c, line });
                        i += 1;
                    },
                }
            }
            proof {
                assert(i == found.end && line == found.line);
                match found.piece {
                    Piece::Token(token) => {
                        assert(token_views(tokens@) == before.push(token));
                        assert(before.push(token) + rest.tokens =~= before + (seq![token]
                            + rest.tokens));
                    },
                    Piece::Error(error) => {
                        assert(errors@ == errors_before.push(error));
                        assert(errors_before.push(error) + rest.errors =~= errors_before + (
                        seq![error] + rest.errors));
                    },
                    Piece::Blank => {},
                }
            }
        }
        let last = Token {
            type_: TokenType::Eof,
            lexeme: String::new(),
            literal: Literal::Null,
            line,
        };
        proof {
            lemma_push_token(tokens@, last);
            assert(token_views(tokens@).push(last@) =~= token_views(tokens@) + seq![last@]);
            assert(errors@ + Seq::<ErrorType>::empty() =~= errors@);
        }
        tokens.push(last);
        if errors.len() == 0 {
            Ok(tokens)
        } else {
            Err(errors)
        }
    }
}

/// The views of a token sequence with one more token are the views of the sequence
/// with the view of that token.
pub proof fn lemma_push_token(tokens: Seq<Token>, token: Token)
    ensures
        token_views(tokens.push(token)) == token_views(tokens).push(token@),
{
    assert(token_views(tokens.push(token)) =~= token_views(tokens).push(token@));
}

/// Whether `c` is a decimal digit.
fn digit(c: char) -> (yes: bool)
    ensures
        yes == is_digit(c),
{
    '0' <= c && c <= '9'
}

/// Whether `c` can start a name.
fn letter(c: char) -> (yes: bool)
    ensures
        yes == is_letter(c),
{
    ('a' <= c && c <= 'z') || ('A' <= c && c <= 'Z') || c == '_'
}

/// The line after `line`.
fn following_line(line: usize) -> (next: usize)
    ensures
        next == next_line(line),
{
    if line < usize::MAX {
        line + 1
    } else {
        line
    }
}

/// Whether `c` forms a token of its own with a `=` that follows.
fn double(c: char) -> (yes: bool)
    ensures
        yes == double_symbol(c) is Some,
{
    c == '!' || c == '=' || c == '>' || c == '<'
}

/// The kind of the token that starts with the symbol `c`, which a `=` follows at
/// once or not.
fn symbol(c: char, followed: bool) -> (kind: Option<TokenType>)
    ensures
        kind == if double_symbol(c) is Some && followed {
            double_symbol(c)
        } else {
            single_symbol(c)
        },
{
    if c == '(' {
        Some(TokenType::LeftParen)
    } else if c == ')' {
        Some(TokenType::RightParen)
    } else if c == '{' {
        Some(TokenType::LeftCurly)
    } else if c == '}' {
        Some(TokenType::RightCurly)
    } else if c == '[' {
        Some(TokenType::LeftSquare)
    } else if c == ']' {
        Some(TokenType::RightSquare)
    } else if c == ',' {
        Some(TokenType::Comma)
    } else if c == ':' {
        Some(TokenType::Colon)
    } else if c == ';' {
        Some(TokenType::Semicolon)
    } else if c == '+' {
        Some(TokenType::Plus)
    } else if c == '-' {
        Some(TokenType::Minus)
    } else if c == '*' {
        Some(TokenType::Star)
    } else if c == '/' {
        Some(TokenType::Slash)
    } else if c == '%' {
        Some(TokenType::Percent)
    } else if c == '!' {
        if followed {
            Some(TokenType::BangEqual)
        } else {
            Some(TokenType::Bang)
        }
    } else if c == '=' {
        if followed {
            Some(TokenType::EqualEqual)
        } else {
            Some(TokenType::Equal)
        }
    } else if c == '>' {
        if followed {
            Some(TokenType::GreaterEqual)
        } else {
            Some(TokenType::Greater)
        }
    } else if c == '<' {
        if followed {
            Some(TokenType::LessEqual)
        } else {
            Some(TokenType::Less)
        }
    } else {
        None
    }
}

} // verus!
