//! The lexer, and what it reads from a text, stated over character sequences.
use vstd::prelude::*;

use crate::text::{string_of, string_of_chars};
use crate::token::{keyword_kind, Tok, Token, TokenType};

verus! {

/// Characters that may start a word: ASCII letters and `_`.
pub open spec fn is_letter(c: char) -> bool {
    ('a' <= c && c <= 'z') || ('A' <= c && c <= 'Z') || c == '_'
}

/// Characters that may continue a word: ASCII letters, digits and `_`.
pub open spec fn is_word_char(c: char) -> bool {
    is_letter(c) || is_digit(c)
}

/// Decimal digits.
pub open spec fn is_digit(c: char) -> bool {
    '0' <= c && c <= '9'
}

/// Unicode white space, the characters skipped between tokens.
pub open spec fn is_space(c: char) -> bool {
    ('\u{9}' <= c && c <= '\u{d}') || c == ' ' || c == '\u{85}' || c == '\u{a0}'
        || c == '\u{1680}' || ('\u{2000}' <= c && c <= '\u{200a}') || c == '\u{2028}'
        || c == '\u{2029}' || c == '\u{202f}' || c == '\u{205f}' || c == '\u{3000}'
}

/// The first position at or after `i` that does not hold white space.
pub open spec fn skip_space(s: Seq<char>, i: int) -> int
    decreases s.len() - i,
{
    if 0 <= i < s.len() && is_space(s[i]) {
        skip_space(s, i + 1)
    } else {
        i
    }
}

/// The end of the run of letters, digits and `_` that starts at `i`.
pub open spec fn word_end(s: Seq<char>, i: int) -> int
    decreases s.len() - i,
{
    if 0 <= i < s.len() && is_word_char(s[i]) {
        word_end(s, i + 1)
    } else {
        i
    }
}

/// The end of the run of digits that starts at `i`.
pub open spec fn digits_end(s: Seq<char>, i: int) -> int
    decreases s.len() - i,
{
    if 0 <= i < s.len() && is_digit(s[i]) {
        digits_end(s, i + 1)
    } else {
        i
    }
}

/// The position of the first `"` at or after `i`, or the end of the input.
pub open spec fn quote_end(s: Seq<char>, i: int) -> int
    decreases s.len() - i,
{
    if 0 <= i < s.len() && s[i] != '"' {
        quote_end(s, i + 1)
    } else {
        i
    }
}

/// The category of a character that is a token on its own, if it is one.
pub open spec fn single_kind(c: char) -> Option<TokenType> {
    if c == '+' { Some(TokenType::PLUS) }
    else if c == '-' { Some(TokenType::MINUS) }
    else if c == '*' { Some(TokenType::ASTERISK) }
    else if c == '/' { Some(TokenType::SLASH) }
    else if c == '<' { Some(TokenType::LT) }
    else if c == '>' { Some(TokenType::GT) }
    else if c == '(' { Some(TokenType::LPAREN) }
    else if c == ')' { Some(TokenType::RPAREN) }
    else if c == '{' { Some(TokenType::LBRACE) }
    else if c == '}' { Some(TokenType::RBRACE) }
    else if c == '[' { Some(TokenType::LBRACKET) }
    else if c == ']' { Some(TokenType::RBRACKET) }
    else if c == ',' { Some(TokenType::COMMA) }
    else if c == ';' { Some(TokenType::SEMICOLON) }
    else if c == ':' { Some(TokenType::COLON) }
    else { None }
}

/// The token that starts exactly at `i`: its category, its text, and the
/// position just after it. At the end of the input it is end-of-input, and
/// the position stays where it is.
pub open spec fn token_at(s: Seq<char>, i: int) -> (TokenType, Seq<char>, int) {
    if i >= s.len() {
        (TokenType::EOF, Seq::empty(), i)
    } else if s[i] == '=' {
        if i + 1 < s.len() && s[i + 1] == '=' {
            (TokenType::EQ, seq!['=', '='], i + 2)
        } else {
            (TokenType::ASSIGN, seq!['='], i + 1)
        }
    } else if s[i] == '!' {
        if i + 1 < s.len() && s[i + 1] == '=' {
            (TokenType::NOTEQ, seq!['!', '='], i + 2)
        } else {
            (TokenType::BANG, seq!['!'], i + 1)
        }
    } else if single_kind(s[i]) is Some {
        (single_kind(s[i])->0, seq![s[i]], i + 1)
    } else if s[i] == '"' {
        let e = quote_end(s, i + 1);
        (TokenType::STRING, s.subrange(i + 1, e), if e < s.len() { e + 1 } else { e })
    } else if is_letter(s[i]) {
        let e = word_end(s, i);
        (keyword_kind(s.subrange(i, e)), s.subrange(i, e), e)
    } else if is_digit(s[i]) {
        let e = digits_end(s, i);
        (TokenType::INT, s.subrange(i, e), e)
    } else {
        (TokenType::ILLEGAL, seq![s[i]], i + 1)
    }
}

/// The next token read from position `i`: white space is skipped first.
pub open spec fn next_token_at(s: Seq<char>, i: int) -> (TokenType, Seq<char>, int) {
    token_at(s, skip_space(s, i))
}

/// Reads tokens from a source text, one at a time, always moving forward.
pub struct Lexer {
    input: Vec<char>,
    position: usize,
}

impl Lexer {
    /// The source text.
    pub closed spec fn source(&self) -> Seq<char> {
        self.input@
    }

    /// Where the next token is read from.
    pub closed spec fn pos(&self) -> int {
        self.position as int
    }

    /// The cursor never passes the end of the input.
    pub open spec fn wf(&self) -> bool {
        0 <= self.pos() <= self.source().len()
    }

    /// A lexer at the start of `input`.
    pub fn new(input: String) -> (l: Lexer)
        ensures
            l.wf(),
            l.source() == input@,
            l.pos() == 0,
    {
        let s = input.as_str();
        let n = s.unicode_len();
        let mut chars: Vec<char> = Vec::new();
        let mut i: usize = 0;
        while i < n
            invariant
                n == s@.len(),
                s@ == input@,
                i <= n,
                chars@ == s@.subrange(0, i as int),
            decreases n - i,
        {
            chars.push(s.get_char(i));
            assert(chars@ =~= s@.subrange(0, i + 1));
            i = i + 1;
        }
        assert(chars@ =~= input@);
        Lexer { input: chars, position: 0 }
    }

    fn is_letter(ch: char) -> (r: bool)
        ensures
            r == is_letter(ch),
    {
        ('a' <= ch && ch <= 'z') || ('A' <= ch && ch <= 'Z') || ch == '_'
    }

    fn is_word_char(ch: char) -> (r: bool)
        ensures
            r == is_word_char(ch),
    {
        Self::is_letter(ch) || Self::is_digit(ch)
    }

    fn is_digit(ch: char) -> (r: bool)
        ensures
            r == is_digit(ch),
    {
        '0' <= ch && ch <= '9'
    }

    fn is_space(c: char) -> (r: bool)
        ensures
            r == is_space(c),
    {
        ('\u{9}' <= c && c <= '\u{d}') || c == ' ' || c == '\u{85}' || c == '\u{a0}'
            || c == '\u{1680}' || ('\u{2000}' <= c && c <= '\u{200a}') || c == '\u{2028}'
            || c == '\u{2029}' || c == '\u{202f}' || c == '\u{205f}' || c == '\u{3000}'
    }

    /// The character after the current one, if there is one.
    fn peek_char(&self) -> (r: Option<char>)
        requires
            self.wf(),
        ensures
            self.pos() + 1 < self.source().len() ==> r == Some(self.source()[self.pos() + 1]),
            self.pos() + 1 >= self.source().len() ==> r is None,
    {
        if self.input.len() - self.position > 1 {
            Some(self.input[self.position + 1])
        } else {
            None
        }
    }

    fn skip_whitespace(&mut self)
        requires
            old(self).wf(),
        ensures
            final(self).wf(),
            final(self).source() == old(self).source(),
            final(self).pos() == skip_space(old(self).source(), old(self).pos()),
    {
        while self.position < self.input.len() && Self::is_space(self.input[self.position])
            invariant
                self.wf(),
                self.input@ == old(self).input@,
                skip_space(self.input@, self.position as int) == skip_space(
                    old(self).input@,
                    old(self).position as int,
                ),
            decreases self.input.len() - self.position,
        {
            self.position = self.position + 1;
        }
    }

    fn read_identifier(&mut self) -> (r: String)
        requires
            old(self).wf(),
        ensures
            final(self).wf(),
            final(self).source() == old(self).source(),
            final(self).pos() == word_end(old(self).source(), old(self).pos()),
            r@ == old(self).source().subrange(old(self).pos(), final(self).pos()),
    {
        let start = self.position;
        while self.position < self.input.len() && Self::is_word_char(self.input[self.position])
            invariant
                self.wf(),
                self.input@ == old(self).input@,
                start <= self.position,
                word_end(self.input@, self.position as int) == word_end(
                    old(self).input@,
                    start as int,
                ),
            decreases self.input.len() - self.position,
        {
            self.position = self.position + 1;
        }
        string_of_chars(&self.input, start, self.position)
    }

    fn read_number(&mut self) -> (r: String)
        requires
            old(self).wf(),
        ensures
            final(self).wf(),
            final(self).source() == old(self).source(),
            final(self).pos() == digits_end(old(self).source(), old(self).pos()),
            r@ == old(self).source().subrange(old(self).pos(), final(self).pos()),
    {
        let start = self.position;
        while self.position < self.input.len() && Self::is_digit(self.input[self.position])
            invariant
                self.wf(),
                self.input@ == old(self).input@,
                start <= self.position,
                digits_end(self.input@, self.position as int) == digits_end(
                    old(self).input@,
                    start as int,
                ),
            decreases self.input.len() - self.position,
        {
            self.position = self.position + 1;
        }
        string_of_chars(&self.input, start, self.position)
    }

    /// Reads a string literal whose opening quote is the current character.
    fn read_string(&mut self) -> (r: String)
        requires
            old(self).wf(),
            old(self).pos() < old(self).source().len(),
        ensures
            final(self).wf(),
            final(self).source() == old(self).source(),
            ({
                let e = quote_end(old(self).source(), old(self).pos() + 1);
                &&& r@ == old(self).source().subrange(old(self).pos() + 1, e)
                &&& final(self).pos() == if e < old(self).source().len() { e + 1 } else { e }
            }),
    {
        assert(self.position < self.input.len());
        let start = self.position + 1;
        self.position = start;
        while self.position < self.input.len() && self.input[self.position] != '"'
            invariant
                self.wf(),
                self.input@ == old(self).input@,
                start <= self.position,
                quote_end(self.input@, self.position as int) == quote_end(
                    old(self).input@,
                    start as int,
                ),
            decreases self.input.len() - self.position,
        {
            self.position = self.position + 1;
        }
        let r = string_of_chars(&self.input, start, self.position);
        if self.position < self.input.len() {
            self.position = self.position + 1;
        }
        r
    }

    /// The word starting at the current letter, as a keyword or an identifier.
    fn read_word(&mut self) -> (tok: Token)
        requires
            old(self).wf(),
        ensures
            final(self).wf(),
            final(self).source() == old(self).source(),
            final(self).pos() == word_end(old(self).source(), old(self).pos()),
            tok.literal@ == old(self).source().subrange(old(self).pos(), final(self).pos()),
            tok.token_type == keyword_kind(tok.literal@),
    {
        let word = self.read_identifier();
        let token_type = lookup_ident(&word);
        Token { token_type, literal: word }
    }

    /// Reads the next token. At the end of the input this is end-of-input,
    /// again at every further call.
    pub fn next_token(&mut self) -> (tok: Token)
        requires
            old(self).wf(),
        ensures
            final(self).wf(),
            final(self).source() == old(self).source(),
            (tok.token_type, tok.literal@, final(self).pos()) == next_token_at(
                old(self).source(),
                old(self).pos(),
            ),
    {
        self.skip_whitespace();
        let i = self.position;
        if i >= self.input.len() {
            return Token { token_type: TokenType::EOF, literal: String::new() };
        }
        let ch = self.input[i];
        if ch == '=' {
            if self.peek_char() == Some('=') {
                self.position = i + 2;
                Token { token_type: TokenType::EQ, literal: string_of(&['=', '=']) }
            } else {
                self.position = i + 1;
                Token { token_type: TokenType::ASSIGN, literal: string_of(&['=']) }
            }
        } else if ch == '!' {
            if self.peek_char() == Some('=') {
                self.position = i + 2;
                Token { token_type: TokenType::NOTEQ, literal: string_of(&['!', '=']) }
            } else {
                self.position = i + 1;
                Token { token_type: TokenType::BANG, literal: string_of(&['!']) }
            }
        } else if let Some(kind) = single_char_kind(ch) {
            self.position = i + 1;
            Token { token_type: kind, literal: string_of(&[ch]) }
        } else if ch == '"' {
            let literal = self.read_string();
            Token { token_type: TokenType::STRING, literal }
        } else if Self::is_letter(ch) {
            self.read_word()
        } else if Self::is_digit(ch) {
            let literal = self.read_number();
            Token { token_type: TokenType::INT, literal }
        } else {
            self.position = i + 1;
            Token { token_type: TokenType::ILLEGAL, literal: string_of(&[ch]) }
        }
    }
}

/// The category of a character that is a token on its own.
fn single_char_kind(c: char) -> (r: Option<TokenType>)
    ensures
        r == single_kind(c),
{
    if c == '+' { Some(TokenType::PLUS) }
    else if c == '-' { Some(TokenType::MINUS) }
    else if c == '*' { Some(TokenType::ASTERISK) }
    else if c == '/' { Some(TokenType::SLASH) }
    else if c == '<' { Some(TokenType::LT) }
    else if c == '>' { Some(TokenType::GT) }
    else if c == '(' { Some(TokenType::LPAREN) }
    else if c == ')' { Some(TokenType::RPAREN) }
    else if c == '{' { Some(TokenType::LBRACE) }
    else if c == '}' { Some(TokenType::RBRACE) }
    else if c == '[' { Some(TokenType::LBRACKET) }
    else if c == ']' { Some(TokenType::RBRACKET) }
    else if c == ',' { Some(TokenType::COMMA) }
    else if c == ';' { Some(TokenType::SEMICOLON) }
    else if c == ':' { Some(TokenType::COLON) }
    else { None }
}

/// Whether `w` spells exactly the characters of `k`.
fn spells(w: &String, k: &[char]) -> (r: bool)
    ensures
        r == (w@ == k@),
{
    let s = w.as_str();
    let n = s.unicode_len();
    if n != k.len() {
        return false;
    }
    let mut i: usize = 0;
    while i < n
        invariant
            n == s@.len() == k@.len(),
            s@ == w@,
            i <= n,
            forall|j: int| 0 <= j < i ==> s@[j] == k@[j],
        decreases n - i,
    {
        if s.get_char(i) != k[i] {
            return false;
        }
        i = i + 1;
    }
    assert(w@ =~= k@);
    true
}

/// Looks a word up in the keyword table.
fn lookup_ident(w: &String) -> (r: TokenType)
    ensures
        r == keyword_kind(w@),
{
    if spells(w, &['f', 'n']) {
        TokenType::FN
    } else if spells(w, &['l', 'e', 't']) {
        TokenType::LET
    } else if spells(w, &['i', 'f']) {
        TokenType::IF
    } else if spells(w, &['e', 'l', 's', 'e']) {
        TokenType::ELSE
    } else if spells(w, &['r', 'e', 't', 'u', 'r', 'n']) {
        TokenType::RETURN
    } else if spells(w, &['t', 'r', 'u', 'e']) {
        TokenType::TRUE
    } else if spells(w, &['f', 'a', 'l', 's', 'e']) {
        TokenType::FALSE
    } else {
        TokenType::IDENT
    }
}

/// Every token of the input from position `i` on, up to and including the
/// first end-of-input. A token other than end-of-input always moves the
/// cursor forward and never past the end (`lemma_next_token_progress`); the
/// comparisons of positions only make that decrease visible.
#[verifier::opaque]
pub open spec fn lex_tokens(s: Seq<char>, i: int) -> Seq<Tok>
    decreases s.len() - i,
{
    let (t, lit, j) = next_token_at(s, i);
    if t == TokenType::EOF || j <= i || j > s.len() {
        seq![(t, lit)]
    } else {
        seq![(t, lit)] + lex_tokens(s, j)
    }
}

proof fn lemma_skip_space(s: Seq<char>, i: int)
    requires
        0 <= i <= s.len(),
    ensures
        i <= skip_space(s, i) <= s.len(),
    decreases s.len() - i,
{
    if i < s.len() && is_space(s[i]) {
        lemma_skip_space(s, i + 1);
    }
}

proof fn lemma_word_end(s: Seq<char>, i: int)
    requires
        0 <= i <= s.len(),
    ensures
        i <= word_end(s, i) <= s.len(),
    decreases s.len() - i,
{
    if i < s.len() && is_word_char(s[i]) {
        lemma_word_end(s, i + 1);
    }
}

proof fn lemma_digits_end(s: Seq<char>, i: int)
    requires
        0 <= i <= s.len(),
    ensures
        i <= digits_end(s, i) <= s.len(),
    decreases s.len() - i,
{
    if i < s.len() && is_digit(s[i]) {
        lemma_digits_end(s, i + 1);
    }
}

proof fn lemma_quote_end(s: Seq<char>, i: int)
    requires
        0 <= i <= s.len(),
    ensures
        i <= quote_end(s, i) <= s.len(),
    decreases s.len() - i,
{
    if i < s.len() && s[i] != '"' {
        lemma_quote_end(s, i + 1);
    }
}

/// Reading a token never passes the end of the input, and every token but
/// end-of-input moves the cursor forward.
pub proof fn lemma_next_token_progress(s: Seq<char>, i: int)
    requires
        0 <= i <= s.len(),
    ensures
        i <= next_token_at(s, i).2 <= s.len(),
        next_token_at(s, i).0 != TokenType::EOF ==> i < next_token_at(s, i).2,
        next_token_at(s, i).0 == TokenType::EOF ==> next_token_at(s, i).2 == s.len(),
{
    lemma_skip_space(s, i);
    let k = skip_space(s, i);
    if k < s.len() {
        if s[k] == '"' {
            lemma_quote_end(s, k + 1);
        } else if is_letter(s[k]) {
            lemma_word_end(s, k + 1);
            assert(word_end(s, k) == word_end(s, k + 1));
        } else if is_digit(s[k]) {
            lemma_digits_end(s, k + 1);
            assert(digits_end(s, k) == digits_end(s, k + 1));
        }
    }
}

/// Maximal munch: `=` or `!` followed by `=` is one two-character token,
/// never the one-character token and another.
pub proof fn lemma_maximal_munch(s: Seq<char>, i: int)
    requires
        0 <= i,
        i + 1 < s.len(),
        s[i] == '=' || s[i] == '!',
        s[i + 1] == '=',
    ensures
        s[i] == '=' ==> token_at(s, i) == (TokenType::EQ, seq!['=', '='], i + 2),
        s[i] == '!' ==> token_at(s, i) == (TokenType::NOTEQ, seq!['!', '='], i + 2),
{
}

/// Once the input is used up, reading gives end-of-input and leaves the
/// cursor where it is, so every further read does the same.
pub proof fn lemma_end_of_input_repeats(s: Seq<char>)
    ensures
        next_token_at(s, s.len() as int) == (TokenType::EOF, Seq::<char>::empty(), s.len() as int),
        lex_tokens(s, s.len() as int) == seq![(TokenType::EOF, Seq::<char>::empty())],
{
    reveal(lex_tokens);
}

proof fn lemma_skip_space_shift(p: Seq<char>, r: Seq<char>, j: int)
    requires
        0 <= j <= r.len(),
    ensures
        skip_space(p + r, p.len() + j) == p.len() + skip_space(r, j),
    decreases r.len() - j,
{
    if j < r.len() {
        assert((p + r)[p.len() + j] == r[j]);
        if is_space(r[j]) {
            lemma_skip_space_shift(p, r, j + 1);
        }
    }
}

proof fn lemma_word_end_shift(p: Seq<char>, r: Seq<char>, j: int)
    requires
        0 <= j <= r.len(),
    ensures
        word_end(p + r, p.len() + j) == p.len() + word_end(r, j),
    decreases r.len() - j,
{
    if j < r.len() {
        assert((p + r)[p.len() + j] == r[j]);
        if is_word_char(r[j]) {
            lemma_word_end_shift(p, r, j + 1);
        }
    }
}

proof fn lemma_digits_end_shift(p: Seq<char>, r: Seq<char>, j: int)
    requires
        0 <= j <= r.len(),
    ensures
        digits_end(p + r, p.len() + j) == p.len() + digits_end(r, j),
    decreases r.len() - j,
{
    if j < r.len() {
        assert((p + r)[p.len() + j] == r[j]);
        if is_digit(r[j]) {
            lemma_digits_end_shift(p, r, j + 1);
        }
    }
}

proof fn lemma_quote_end_shift(p: Seq<char>, r: Seq<char>, j: int)
    requires
        0 <= j <= r.len(),
    ensures
        quote_end(p + r, p.len() + j) == p.len() + quote_end(r, j),
    decreases r.len() - j,
{
    if j < r.len() {
        assert((p + r)[p.len() + j] == r[j]);
        if r[j] != '"' {
            lemma_quote_end_shift(p, r, j + 1);
        }
    }
}

proof fn lemma_token_at_shift(p: Seq<char>, r: Seq<char>, k: int)
    requires
        0 <= k <= r.len(),
    ensures
        ({
            let (t, lit, e) = token_at(r, k);
            token_at(p + r, p.len() + k) == (t, lit, p.len() + e)
        }),
{
    let s = p + r;
    let n = p.len() as int;
    if k < r.len() {
        assert(s[n + k] == r[k]);
        if k + 1 < r.len() {
            assert(s[n + k + 1] == r[k + 1]);
        }
        if r[k] == '"' {
            lemma_quote_end_shift(p, r, k + 1);
            lemma_quote_end(r, k + 1);
            let e = quote_end(r, k + 1);
            assert(s.subrange(n + k + 1, n + e) =~= r.subrange(k + 1, e));
        } else if is_letter(r[k]) {
            lemma_word_end_shift(p, r, k);
            lemma_word_end(r, k);
            let e = word_end(r, k);
            assert(s.subrange(n + k, n + e) =~= r.subrange(k, e));
        } else if is_digit(r[k]) {
            lemma_digits_end_shift(p, r, k);
            lemma_digits_end(r, k);
            let e = digits_end(r, k);
            assert(s.subrange(n + k, n + e) =~= r.subrange(k, e));
        }
    }
}

/// Lexing only looks forward: the tokens read from `p + r` once `p` is
/// behind are those read from `r`.
pub proof fn lemma_lex_tokens_shift(p: Seq<char>, r: Seq<char>, j: int)
    requires
        0 <= j <= r.len(),
    ensures
        lex_tokens(p + r, p.len() + j) == lex_tokens(r, j),
    decreases r.len() - j,
{
    reveal(lex_tokens);
    lemma_skip_space_shift(p, r, j);
    lemma_skip_space(r, j);
    lemma_token_at_shift(p, r, skip_space(r, j));
    lemma_next_token_progress(r, j);
    let (t, lit, e) = next_token_at(r, j);
    if !(t == TokenType::EOF || e <= j || e > r.len()) {
        lemma_lex_tokens_shift(p, r, e);
    }
}

/// The text of an operator token; empty for the other categories.
#[verifier::opaque]
pub open spec fn op_text(t: TokenType) -> Seq<char> {
    match t {
        TokenType::ASSIGN => seq!['='],
        TokenType::PLUS => seq!['+'],
        TokenType::MINUS => seq!['-'],
        TokenType::ASTERISK => seq!['*'],
        TokenType::SLASH => seq!['/'],
        TokenType::LT => seq!['<'],
        TokenType::GT => seq!['>'],
        TokenType::LPAREN => seq!['('],
        TokenType::RPAREN => seq![')'],
        TokenType::LBRACE => seq!['{'],
        TokenType::RBRACE => seq!['}'],
        TokenType::LBRACKET => seq!['['],
        TokenType::RBRACKET => seq![']'],
        TokenType::COMMA => seq![','],
        TokenType::SEMICOLON => seq![';'],
        TokenType::COLON => seq![':'],
        TokenType::BANG => seq!['!'],
        TokenType::EQ => seq!['=', '='],
        TokenType::NOTEQ => seq!['!', '='],
        _ => Seq::empty(),
    }
}

pub open spec fn is_operator(t: TokenType) -> bool {
    op_text(t).len() > 0
}

/// The texts of operators written one after the other, without spaces.
pub open spec fn ops_text(ops: Seq<TokenType>) -> Seq<char>
    decreases ops.len(),
{
    if ops.len() == 0 {
        Seq::empty()
    } else {
        op_text(ops[0]) + ops_text(ops.drop_first())
    }
}

/// No `=` or `!` stands right before an operator that starts with `=`, where
/// the two would read as one token.
pub open spec fn no_merging(ops: Seq<TokenType>) -> bool {
    forall|i: int|
        0 <= i < ops.len() - 1 ==> ((#[trigger] ops[i] == TokenType::ASSIGN || ops[i]
            == TokenType::BANG) ==> !(ops[i + 1] == TokenType::ASSIGN || ops[i + 1]
            == TokenType::EQ))
}

proof fn lemma_ops_text_first(ops: Seq<TokenType>)
    requires
        ops.len() > 0,
        is_operator(ops[0]),
    ensures
        ops_text(ops).len() > 0,
        ops_text(ops)[0] == op_text(ops[0])[0],
{
}

proof fn lemma_op_first_char(t: TokenType)
    requires
        is_operator(t),
        t != TokenType::ASSIGN,
        t != TokenType::EQ,
    ensures
        op_text(t)[0] != '=',
{
    reveal(op_text);
}

/// The first token of an operator's text followed by `r`.
#[verifier::rlimit(50)]
proof fn lemma_first_operator(o: TokenType, r: Seq<char>)
    requires
        is_operator(o),
        r.len() > 0 && (o == TokenType::ASSIGN || o == TokenType::BANG) ==> r[0] != '=',
    ensures
        next_token_at(op_text(o) + r, 0) == (o, op_text(o), op_text(o).len() as int),
{
    reveal(op_text);
    let t = op_text(o);
    let text = t + r;
    assert(text[0] == t[0]);
    if t.len() == 2 {
        assert(text[1] == t[1]);
    } else if r.len() > 0 {
        assert(text[1] == r[0]);
    }
    assert(skip_space(text, 0) == 0);
}

proof fn lemma_lex_first(s: Seq<char>, o: TokenType, t: Seq<char>)
    requires
        next_token_at(s, 0) == (o, t, t.len() as int),
        o != TokenType::EOF,
        0 < t.len() <= s.len(),
    ensures
        lex_tokens(s, 0) == seq![(o, t)] + lex_tokens(s, t.len() as int),
{
    reveal(lex_tokens);
}

proof fn lemma_lex_step(o: TokenType, t: Seq<char>, r: Seq<char>, tail: Seq<Tok>)
    requires
        next_token_at(t + r, 0) == (o, t, t.len() as int),
        o != TokenType::EOF,
        0 < t.len(),
        lex_tokens(r, 0) == tail,
    ensures
        lex_tokens(t + r, 0) == seq![(o, t)] + tail,
{
    lemma_lex_first(t + r, o, t);
    lemma_lex_tokens_shift(t, r, 0);
}

proof fn lemma_operator_step(o: TokenType, r: Seq<char>, tail: Seq<Tok>)
    requires
        is_operator(o),
        r.len() > 0 && (o == TokenType::ASSIGN || o == TokenType::BANG) ==> r[0] != '=',
        lex_tokens(r, 0) == tail,
    ensures
        lex_tokens(op_text(o) + r, 0) == seq![(o, op_text(o))] + tail,
{
    lemma_first_operator(o, r);
    reveal(op_text);
    lemma_lex_step(o, op_text(o), r, tail);
}

proof fn lemma_rest_conditions(ops: Seq<TokenType>)
    requires
        ops.len() > 0,
        forall|i: int| 0 <= i < ops.len() ==> is_operator(#[trigger] ops[i]),
        no_merging(ops),
    ensures
        forall|i: int|
            0 <= i < ops.drop_first().len() ==> is_operator(#[trigger] ops.drop_first()[i]),
        no_merging(ops.drop_first()),
        is_operator(ops[0]),
        ops.len() > 1 ==> ops_text(ops.drop_first()).len() > 0 && ((ops[0] == TokenType::ASSIGN
            || ops[0] == TokenType::BANG) ==> ops_text(ops.drop_first())[0] != '='),
{
    let rest = ops.drop_first();
    assert forall|i: int| 0 <= i < rest.len() implies is_operator(#[trigger] rest[i]) by {
        assert(rest[i] == ops[i + 1]);
    }
    assert forall|i: int| 0 <= i < rest.len() - 1 implies ((#[trigger] rest[i]
        == TokenType::ASSIGN || rest[i] == TokenType::BANG) ==> !(rest[i + 1]
        == TokenType::ASSIGN || rest[i + 1] == TokenType::EQ)) by {
        assert(rest[i] == ops[i + 1] && rest[i + 1] == ops[i + 2]);
    }
    assert(is_operator(ops[0]));
    if ops.len() > 1 {
        assert(ops[1] == rest[0]);
        assert(is_operator(rest[0]));
        lemma_ops_text_first(rest);
        if ops[0] == TokenType::ASSIGN || ops[0] == TokenType::BANG {
            assert(!(ops[1] == TokenType::ASSIGN || ops[1] == TokenType::EQ));
            lemma_op_first_char(rest[0]);
        }
    }
}

proof fn lemma_tokens_cons(ops: Seq<TokenType>)
    requires
        ops.len() > 0,
    ensures
        seq![(ops[0], op_text(ops[0]))] + ops.drop_first().map_values(
            |t: TokenType| (t, op_text(t)),
        ).push((TokenType::EOF, Seq::<char>::empty())) == ops.map_values(
            |t: TokenType| (t, op_text(t)),
        ).push((TokenType::EOF, Seq::<char>::empty())),
{
    let a = seq![(ops[0], op_text(ops[0]))] + ops.drop_first().map_values(
        |t: TokenType| (t, op_text(t)),
    ).push((TokenType::EOF, Seq::<char>::empty()));
    let b = ops.map_values(|t: TokenType| (t, op_text(t))).push(
        (TokenType::EOF, Seq::<char>::empty()),
    );
    assert forall|i: int| 0 <= i < a.len() implies a[i] == b[i] by {
        if 0 < i < ops.len() {
            assert(ops.drop_first()[i - 1] == ops[i]);
        }
    }
    assert(a =~= b);
}

/// The tokens that operators read back as, then end-of-input.
pub open spec fn operator_tokens(ops: Seq<TokenType>) -> Seq<Tok> {
    ops.map_values(|t: TokenType| (t, op_text(t))).push((TokenType::EOF, Seq::<char>::empty()))
}

proof fn lemma_no_operators()
    ensures
        lex_tokens(ops_text(Seq::empty()), 0) == operator_tokens(Seq::empty()),
{
    reveal(lex_tokens);
    assert(ops_text(Seq::<TokenType>::empty()) =~= Seq::<char>::empty());
    assert(lex_tokens(Seq::<char>::empty(), 0) =~= operator_tokens(Seq::empty()));
}

proof fn lemma_operators_step(ops: Seq<TokenType>)
    requires
        ops.len() > 0,
        is_operator(ops[0]),
        ops.len() > 1 ==> ops_text(ops.drop_first()).len() > 0 && ((ops[0] == TokenType::ASSIGN
            || ops[0] == TokenType::BANG) ==> ops_text(ops.drop_first())[0] != '='),
        lex_tokens(ops_text(ops.drop_first()), 0) == operator_tokens(ops.drop_first()),
    ensures
        lex_tokens(ops_text(ops), 0) == operator_tokens(ops),
{
    let o = ops[0];
    let rest = ops.drop_first();
    let r = ops_text(rest);
    if rest.len() == 0 {
        assert(r =~= Seq::<char>::empty());
    }
    lemma_operator_step(o, r, operator_tokens(rest));
    assert(ops_text(ops) == op_text(o) + r);
    lemma_tokens_cons(ops);
}

/// Operators written one after the other without spaces read back as
/// exactly those operators, then one end-of-input; where an `=` or `!`
/// would be followed by an operator that starts with `=`, the pair would
/// read as one two-character token instead.
pub proof fn lemma_operators_tokenize(ops: Seq<TokenType>)
    requires
        forall|i: int| 0 <= i < ops.len() ==> is_operator(#[trigger] ops[i]),
        no_merging(ops),
    ensures
        lex_tokens(ops_text(ops), 0) == operator_tokens(ops),
    decreases ops.len(),
{
    if ops.len() == 0 {
        assert(ops =~= Seq::<TokenType>::empty());
        lemma_no_operators();
    } else {
        lemma_rest_conditions(ops);
        lemma_operators_tokenize(ops.drop_first());
        lemma_operators_step(ops);
    }
}

/// Where the cursor stands after `k` reads that start at position `i`.
pub open spec fn pos_after(s: Seq<char>, i: int, k: nat) -> int
    decreases k,
{
    if k == 0 {
        i
    } else {
        pos_after(s, next_token_at(s, i).2, (k - 1) as nat)
    }
}

proof fn lemma_pos_after_end(s: Seq<char>, k: nat)
    ensures
        pos_after(s, s.len() as int, k) == s.len(),
    decreases k,
{
    lemma_end_of_input_repeats(s);
    if k > 0 {
        lemma_pos_after_end(s, (k - 1) as nat);
    }
}

/// Successive reads give the tokens of `lex_tokens` in order; once
/// end-of-input has been read, every later read gives it again.
pub proof fn lemma_reads_follow_tokens(s: Seq<char>, i: int, k: nat)
    requires
        0 <= i <= s.len(),
    ensures
        k < lex_tokens(s, i).len() ==> ({
            let r = next_token_at(s, pos_after(s, i, k));
            (r.0, r.1) == lex_tokens(s, i)[k as int]
        }),
        k + 1 >= lex_tokens(s, i).len() ==> next_token_at(s, pos_after(s, i, k)) == (
            TokenType::EOF,
            Seq::<char>::empty(),
            s.len() as int,
        ),
    decreases k,
{
    reveal(lex_tokens);
    lemma_next_token_progress(s, i);
    lemma_end_of_input_repeats(s);
    lemma_skip_space(s, i);
    let (t, lit, j) = next_token_at(s, i);
    if t == TokenType::EOF {
        assert(lex_tokens(s, i) == seq![(t, lit)]);
        if k > 0 {
            lemma_pos_after_end(s, (k - 1) as nat);
        }
    } else {
        assert(lex_tokens(s, i) == seq![(t, lit)] + lex_tokens(s, j));
        if k > 0 {
            lemma_reads_follow_tokens(s, j, (k - 1) as nat);
        }
    }
}

/// Read call by call, operators written together without spaces give each
/// operator in turn, and from then on only end-of-input.
pub proof fn lemma_operator_reads(ops: Seq<TokenType>, k: nat)
    requires
        forall|i: int| 0 <= i < ops.len() ==> is_operator(#[trigger] ops[i]),
        no_merging(ops),
    ensures
        k < ops.len() ==> ({
            let r = next_token_at(ops_text(ops), pos_after(ops_text(ops), 0, k));
            r.0 == ops[k as int] && r.1 == op_text(ops[k as int])
        }),
        k >= ops.len() ==> next_token_at(ops_text(ops), pos_after(ops_text(ops), 0, k)) == (
            TokenType::EOF,
            Seq::<char>::empty(),
            ops_text(ops).len() as int,
        ),
{
    lemma_operators_tokenize(ops);
    lemma_reads_follow_tokens(ops_text(ops), 0, k);
    assert(operator_tokens(ops).len() == ops.len() + 1);
    if k < ops.len() {
        assert(operator_tokens(ops)[k as int] == (ops[k as int], op_text(ops[k as int])));
    }
}

} // verus!
