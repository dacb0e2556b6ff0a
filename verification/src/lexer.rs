//! The lexer: turns source text into tokens, one at a time.
//!
//! The model of lexing is [`next_token_spec`]: from a position in the source it gives the
//! next token and the position just after it. Whitespace and `//` line comments are
//! skipped; once the text is exhausted every further token is `EOF`.
use vstd::prelude::*;
use crate::text::{
    char_is_alphabetic, char_is_alphanumeric, char_is_ascii_digit, char_is_whitespace,
    char_to_string, chars_of, collect_chars, is_alphabetic_char, is_alphanumeric_char, is_digit_char,
    is_whitespace_char, lemma_scan_bounds, lemma_scan_idempotent, scan_while, text_is,
};

verus! {

/// A token of Aether source text.
#[derive(Debug, PartialEq)]
pub enum Token {
    Keyword(String),
    Identifier(String),
    StringLiteral(String),
    Number(String),
    Operator(String),
    Symbol(char),
    EOF,
}

/// The model of a [`Token`].
pub enum SpecToken {
    Keyword(Seq<char>),
    Identifier(Seq<char>),
    StringLiteral(Seq<char>),
    Number(Seq<char>),
    Operator(Seq<char>),
    Symbol(char),
    EOF,
}

impl View for Token {
    type V = SpecToken;

    open spec fn view(&self) -> SpecToken {
        match self {
            Token::Keyword(s) => SpecToken::Keyword(s@),
            Token::Identifier(s) => SpecToken::Identifier(s@),
            Token::StringLiteral(s) => SpecToken::StringLiteral(s@),
            Token::Number(s) => SpecToken::Number(s@),
            Token::Operator(s) => SpecToken::Operator(s@),
            Token::Symbol(c) => SpecToken::Symbol(*c),
            Token::EOF => SpecToken::EOF,
        }
    }
}

/// The reserved words of the language.
pub open spec fn is_keyword(text: Seq<char>) -> bool {
    ||| text == "actor"@
    ||| text == "fn"@
    ||| text == "let"@
    ||| text == "return"@
    ||| text == "print"@
    ||| text == "if"@
    ||| text == "else"@
    ||| text == "while"@
    ||| text == "for"@
    ||| text == "in"@
    ||| text == "true"@
    ||| text == "false"@
    ||| text == "import"@
}

/// The characters that may continue an identifier.
pub open spec fn word_class() -> spec_fn(char) -> bool {
    |c: char| is_alphanumeric_char(c) || c == '_'
}

/// The characters of a number literal.
pub open spec fn number_class() -> spec_fn(char) -> bool {
    |c: char| is_digit_char(c) || c == '.'
}

/// The characters inside a string literal.
pub open spec fn string_body_class() -> spec_fn(char) -> bool {
    |c: char| c != '"'
}

/// The characters of a line comment, up to its line break.
pub open spec fn comment_class() -> spec_fn(char) -> bool {
    |c: char| c != '\n'
}

/// Whitespace.
pub open spec fn whitespace_class() -> spec_fn(char) -> bool {
    |c: char| is_whitespace_char(c)
}

/// A `//` comment starts at `p`.
pub open spec fn starts_comment(input: Seq<char>, p: int) -> bool {
    0 <= p && p + 1 < input.len() && input[p] == '/' && input[p + 1] == '/'
}

/// The character at `i`, or `'\0'` past the end.
pub open spec fn char_or_nul(input: Seq<char>, i: int) -> char {
    if 0 <= i < input.len() {
        input[i]
    } else {
        '\0'
    }
}

/// Where the next token starts: whitespace and line comments after `pos` are skipped.
pub open spec fn token_start(input: Seq<char>, pos: int) -> int
    decreases input.len() - pos,
{
    let p = scan_while(input, pos, whitespace_class());
    if p < input.len() && starts_comment(input, p) {
        proof {
            lemma_scan_bounds(input, pos, whitespace_class());
            lemma_scan_bounds(input, p, comment_class());
        }
        token_start(input, scan_while(input, p, comment_class()))
    } else {
        p
    }
}

/// The two-character operators.
pub open spec fn is_two_char_operator(c: char, d: char) -> bool {
    ||| c == '=' && d == '='
    ||| c == '!' && d == '='
    ||| c == '<' && d == '='
    ||| c == '>' && d == '='
    ||| c == '-' && d == '>'
    ||| c == '&' && d == '&'
    ||| c == '|' && d == '|'
}

/// The one-character operators.
pub open spec fn is_one_char_operator(c: char) -> bool {
    c == '+' || c == '-' || c == '*' || c == '/' || c == '=' || c == '<' || c == '>' || c == '!'
}

/// The token that starts at `p` (a position inside the text, not at whitespace or a
/// comment) and the position just after it.
pub open spec fn token_at(input: Seq<char>, p: int) -> (SpecToken, int) {
    let ch = input[p];
    let nx = char_or_nul(input, p + 1);
    if is_alphabetic_char(ch) || ch == '_' {
        let end = scan_while(input, p + 1, word_class());
        let text = input.subrange(p, end);
        if is_keyword(text) {
            (SpecToken::Keyword(text), end)
        } else {
            (SpecToken::Identifier(text), end)
        }
    } else if is_digit_char(ch) {
        let end = scan_while(input, p, number_class());
        (SpecToken::Number(input.subrange(p, end)), end)
    } else if ch == '"' {
        let close = scan_while(input, p + 1, string_body_class());
        (SpecToken::StringLiteral(input.subrange(p + 1, close)), close + 1)
    } else if is_two_char_operator(ch, nx) {
        (SpecToken::Operator(seq![ch, nx]), p + 2)
    } else if is_one_char_operator(ch) {
        (SpecToken::Operator(seq![ch]), p + 1)
    } else {
        (SpecToken::Symbol(ch), p + 1)
    }
}

/// The next token after position `pos` of `input`, and the position just after it.
/// At the end of the text the token is `EOF`.
pub open spec fn next_token_spec(input: Seq<char>, pos: int) -> (SpecToken, int) {
    let p = token_start(input, pos);
    if p >= input.len() {
        (SpecToken::EOF, p)
    } else {
        token_at(input, p)
    }
}

/// The start of the next token is at or after `pos`, and inside the text or at its end
/// (or left unchanged when `pos` is already past the end).
pub proof fn lemma_token_start_bounds(input: Seq<char>, pos: int)
    ensures
        token_start(input, pos) >= pos,
        pos <= input.len() ==> token_start(input, pos) <= input.len(),
        pos > input.len() ==> token_start(input, pos) == pos,
        0 <= pos && token_start(input, pos) < input.len() ==> {
            &&& !is_whitespace_char(input[token_start(input, pos)])
            &&& !starts_comment(input, token_start(input, pos))
        },
    decreases input.len() - pos,
{
    let p = scan_while(input, pos, whitespace_class());
    lemma_scan_bounds(input, pos, whitespace_class());
    if p < input.len() && starts_comment(input, p) {
        lemma_scan_bounds(input, p, comment_class());
        lemma_token_start_bounds(input, scan_while(input, p, comment_class()));
    }
}

/// Skipping whitespace first does not change where the next token starts.
pub proof fn lemma_token_start_after_whitespace(input: Seq<char>, pos: int)
    requires
        0 <= pos,
    ensures
        token_start(input, scan_while(input, pos, whitespace_class())) == token_start(input, pos),
{
    lemma_scan_idempotent(input, pos, whitespace_class());
    lemma_scan_bounds(input, pos, whitespace_class());
}

/// Reading a token never moves backwards and never leaves the text (but for the one
/// position past its end after an unterminated string literal); every token other than
/// `EOF` consumes at least one character, and `EOF` comes exactly when the rest of the
/// text holds nothing but whitespace and comments.
pub proof fn lemma_next_token_progress(input: Seq<char>, pos: int)
    requires
        0 <= pos <= input.len() + 1,
    ensures
        pos <= next_token_spec(input, pos).1 <= input.len() + 1,
        !(next_token_spec(input, pos).0 is EOF) ==> pos < next_token_spec(input, pos).1,
        (next_token_spec(input, pos).0 is EOF) <==> token_start(input, pos) >= input.len(),
{
    lemma_token_start_bounds(input, pos);
    let p = token_start(input, pos);
    if p < input.len() {
        let ch = input[p];
        if is_alphabetic_char(ch) || ch == '_' {
            lemma_scan_bounds(input, p + 1, word_class());
        } else if is_digit_char(ch) {
            lemma_scan_bounds(input, p + 1, number_class());
            assert(scan_while(input, p, number_class()) == scan_while(input, p + 1, number_class()));
        } else if ch == '"' {
            lemma_scan_bounds(input, p + 1, string_body_class());
        }
    }
}

/// Once the lexer has reached `EOF` it stays there: the next token is `EOF` again and
/// the position does not move.
pub proof fn lemma_eof_is_final(input: Seq<char>, pos: int)
    requires
        next_token_spec(input, pos).0 is EOF,
    ensures
        next_token_spec(input, next_token_spec(input, pos).1) == (
            SpecToken::EOF,
            next_token_spec(input, pos).1,
        ),
{
    let p = token_start(input, pos);
    lemma_token_start_bounds(input, pos);
    lemma_scan_bounds(input, p, whitespace_class());
    if p == input.len() {
        assert(scan_while(input, p, whitespace_class()) == p);
    }
}

/// The position of the lexer after it has read `k` tokens from the start of `input`.
pub open spec fn position_after(input: Seq<char>, k: nat) -> int
    decreases k,
{
    if k == 0 {
        0
    } else {
        next_token_spec(input, position_after(input, (k - 1) as nat)).1
    }
}

/// The token that a lexer at the start of `input` returns on its call number `k`
/// (counting from 0).
pub open spec fn token_number(input: Seq<char>, k: nat) -> SpecToken {
    next_token_spec(input, position_after(input, k)).0
}

/// Until `EOF` the lexer has consumed at least one character per token.
proof fn lemma_position_after(input: Seq<char>, k: nat)
    ensures
        0 <= position_after(input, k) <= input.len() + 1,
        token_number(input, k) is EOF || position_after(input, k) >= k,
    decreases k,
{
    if k > 0 {
        let j = (k - 1) as nat;
        lemma_position_after(input, j);
        lemma_next_token_progress(input, position_after(input, j));
        if token_number(input, j) is EOF {
            lemma_eof_is_final(input, position_after(input, j));
        }
    }
}

/// Lexing ends: a lexer at the start of `input` returns `EOF` on every call from call
/// number `input.len()` on, so a text of `n` characters has at most `n` tokens before
/// `EOF`.
pub proof fn lemma_lexing_ends(input: Seq<char>, k: nat)
    requires
        k >= input.len(),
    ensures
        token_number(input, k) is EOF,
{
    lemma_position_after(input, k);
    lemma_next_token_progress(input, position_after(input, k));
    lemma_token_start_bounds(input, position_after(input, k));
}

/// The shape of each kind of token: keywords are reserved words and identifiers are not;
/// identifiers start with a letter or `_` and continue with letters, digits or `_`;
/// numbers start with a digit and hold only digits and dots; string literals hold no
/// double quote; operators are one of the one- or two-character operators; any other
/// visible character is a symbol.
pub open spec fn token_well_formed(t: SpecToken) -> bool {
    match t {
        SpecToken::Keyword(s) => is_keyword(s),
        SpecToken::Identifier(s) => {
            &&& !is_keyword(s)
            &&& s.len() >= 1
            &&& (is_alphabetic_char(s[0]) || s[0] == '_')
            &&& forall|i: int| 1 <= i < s.len() ==> #[trigger] word_class()(s[i])
        },
        SpecToken::Number(s) => {
            &&& s.len() >= 1
            &&& is_digit_char(s[0])
            &&& forall|i: int| 0 <= i < s.len() ==> #[trigger] number_class()(s[i])
        },
        SpecToken::StringLiteral(s) => forall|i: int| 0 <= i < s.len() ==> #[trigger] s[i] != '"',
        SpecToken::Operator(s) => {
            ||| s.len() == 1 && is_one_char_operator(s[0])
            ||| s.len() == 2 && is_two_char_operator(s[0], s[1])
        },
        SpecToken::Symbol(c) => {
            &&& !is_whitespace_char(c)
            &&& !is_alphabetic_char(c)
            &&& c != '_'
            &&& !is_digit_char(c)
            &&& c != '"'
            &&& !is_one_char_operator(c)
        },
        SpecToken::EOF => true,
    }
}

/// Every token that the lexer reads has the shape of its kind.
pub proof fn lemma_token_well_formed(input: Seq<char>, pos: int)
    requires
        0 <= pos,
    ensures
        token_well_formed(next_token_spec(input, pos).0),
{
    lemma_token_start_bounds(input, pos);
    let p = token_start(input, pos);
    if p < input.len() {
        let ch = input[p];
        if is_alphabetic_char(ch) || ch == '_' {
            let end = scan_while(input, p + 1, word_class());
            lemma_scan_bounds(input, p + 1, word_class());
            let s = input.subrange(p, end);
            assert forall|i: int| 1 <= i < s.len() implies #[trigger] word_class()(s[i]) by {
                assert(s[i] == input[p + i]);
            }
        } else if is_digit_char(ch) {
            let end = scan_while(input, p, number_class());
            lemma_scan_bounds(input, p, number_class());
            let s = input.subrange(p, end);
            assert(number_class()(input[p]));
            assert(scan_while(input, p, number_class()) == scan_while(input, p + 1, number_class()));
            lemma_scan_bounds(input, p + 1, number_class());
            assert forall|i: int| 0 <= i < s.len() implies #[trigger] number_class()(s[i]) by {
                assert(s[i] == input[p + i]);
            }
        } else if ch == '"' {
            let close = scan_while(input, p + 1, string_body_class());
            lemma_scan_bounds(input, p + 1, string_body_class());
            let s = input.subrange(p + 1, close);
            assert forall|i: int| 0 <= i < s.len() implies #[trigger] s[i] != '"' by {
                assert(s[i] == input[p + 1 + i]);
                assert(string_body_class()(input[p + 1 + i]));
            }
        }
    }
}

/// The reserved words, spelled out character by character: `actor`, `fn`, `let`,
/// `return`, `print`, `if`, `else`, `while`, `for`, `in`, `true`, `false`, `import`.
pub open spec fn is_listed_reserved_word(s: Seq<char>) -> bool {
    ||| s == seq!['a', 'c', 't', 'o', 'r']
    ||| s == seq!['f', 'n']
    ||| s == seq!['l', 'e', 't']
    ||| s == seq!['r', 'e', 't', 'u', 'r', 'n']
    ||| s == seq!['p', 'r', 'i', 'n', 't']
    ||| s == seq!['i', 'f']
    ||| s == seq!['e', 'l', 's', 'e']
    ||| s == seq!['w', 'h', 'i', 'l', 'e']
    ||| s == seq!['f', 'o', 'r']
    ||| s == seq!['i', 'n']
    ||| s == seq!['t', 'r', 'u', 'e']
    ||| s == seq!['f', 'a', 'l', 's', 'e']
    ||| s == seq!['i', 'm', 'p', 'o', 'r', 't']
}

/// The keywords are exactly the thirteen listed reserved words.
pub proof fn lemma_keywords_are_the_reserved_words(text: Seq<char>)
    ensures
        is_keyword(text) <==> is_listed_reserved_word(text),
{
    reveal_strlit("actor");
    reveal_strlit("fn");
    reveal_strlit("let");
    reveal_strlit("return");
    reveal_strlit("print");
    reveal_strlit("if");
    reveal_strlit("else");
    reveal_strlit("while");
    reveal_strlit("for");
    reveal_strlit("in");
    reveal_strlit("true");
    reveal_strlit("false");
    reveal_strlit("import");
    assert("actor"@ =~= seq!['a', 'c', 't', 'o', 'r']);
    assert("fn"@ =~= seq!['f', 'n']);
    assert("let"@ =~= seq!['l', 'e', 't']);
    assert("return"@ =~= seq!['r', 'e', 't', 'u', 'r', 'n']);
    assert("print"@ =~= seq!['p', 'r', 'i', 'n', 't']);
    assert("if"@ =~= seq!['i', 'f']);
    assert("else"@ =~= seq!['e', 'l', 's', 'e']);
    assert("while"@ =~= seq!['w', 'h', 'i', 'l', 'e']);
    assert("for"@ =~= seq!['f', 'o', 'r']);
    assert("in"@ =~= seq!['i', 'n']);
    assert("true"@ =~= seq!['t', 'r', 'u', 'e']);
    assert("false"@ =~= seq!['f', 'a', 'l', 's', 'e']);
    assert("import"@ =~= seq!['i', 'm', 'p', 'o', 'r', 't']);
}

/// A word is a keyword token exactly when it is a listed reserved word; every other word
/// (such as `item`) is an identifier.
pub proof fn lemma_word_token_kind(input: Seq<char>, pos: int)
    requires
        0 <= pos,
    ensures
        next_token_spec(input, pos).0 matches SpecToken::Keyword(s) ==> is_listed_reserved_word(s),
        next_token_spec(input, pos).0 matches SpecToken::Identifier(s) ==> !is_listed_reserved_word(
            s,
        ),
{
    lemma_token_well_formed(input, pos);
    match next_token_spec(input, pos).0 {
        SpecToken::Keyword(s) => lemma_keywords_are_the_reserved_words(s),
        SpecToken::Identifier(s) => lemma_keywords_are_the_reserved_words(s),
        _ => {},
    }
}

/// A lexer over a text, with the position of the next character to read.
pub struct Lexer {
    input: Vec<char>,
    position: usize,
}

impl Lexer {
    /// The whole source text.
    pub closed spec fn text(&self) -> Seq<char> {
        self.input@
    }

    /// The position of the next character to read.
    pub closed spec fn pos(&self) -> int {
        self.position as int
    }

    /// The position never passes one beyond the end of the text (it may be there after an
    /// unterminated string literal).
    #[verifier::type_invariant]
    pub open spec fn inv(&self) -> bool {
        &&& self.text().len() < usize::MAX
        &&& 0 <= self.pos() <= self.text().len() + 1
    }

    /// A lexer at the start of `input`.
    pub fn new(input: &str) -> (l: Lexer)
        requires
            input@.len() < usize::MAX,
        ensures
            l.text() == input@,
            l.pos() == 0,
    {
        let chars = chars_of(input);
        Lexer { input: chars, position: 0 }
    }

    /// Reads the next token and moves past it.
    pub fn next_token(&mut self) -> (t: Token)
        ensures
            final(self).text() == old(self).text(),
            (t@, final(self).pos()) == next_token_spec(old(self).text(), old(self).pos()),
            final(self).pos() <= final(self).text().len() + 1,
    {
        proof {
            use_type_invariant(&*self);
        }
        let ghost input = self.input@;
        let ghost start = token_start(input, self.position as int);
        proof {
            lemma_token_start_bounds(input, self.position as int);
        }
        self.skip_whitespace();
        proof {
            lemma_token_start_after_whitespace(input, old(self).position as int);
            lemma_scan_idempotent(input, old(self).position as int, whitespace_class());
        }
        let n = self.input.len();
        if self.position >= n {
            return Token::EOF;
        }
        let mut ch = self.input[self.position];
        let mut next_ch = if self.position + 1 < n {
            self.input[self.position + 1]
        } else {
            '\0'
        };
        while ch == '/' && next_ch == '/'
            invariant
                self.input@ == input,
                input == old(self).text(),
                start == token_start(input, old(self).pos()),
                n == input.len(),
                n < usize::MAX,
                self.position < n,
                scan_while(input, self.position as int, whitespace_class()) == self.position,
                token_start(input, self.position as int) == start,
                ch == input[self.position as int],
                next_ch == char_or_nul(input, self.position + 1),
            decreases n - self.position,
        {
            let ghost p = self.position as int;
            proof {
                lemma_scan_bounds(input, p, comment_class());
            }
            while self.position < n && self.input[self.position] != '\n'
                invariant
                    self.input@ == input,
                    n == input.len(),
                    n < usize::MAX,
                    p <= self.position <= n,
                    scan_while(input, self.position as int, comment_class()) == scan_while(
                        input,
                        p,
                        comment_class(),
                    ),
                decreases n - self.position,
            {
                self.position = self.position + 1;
            }
            let ghost q = self.position as int;
            self.skip_whitespace();
            proof {
                lemma_token_start_after_whitespace(input, q);
                lemma_scan_idempotent(input, q, whitespace_class());
                lemma_scan_bounds(input, q, whitespace_class());
            }
            if self.position >= n {
                return Token::EOF;
            }
            ch = self.input[self.position];
            next_ch = if self.position + 1 < n {
                self.input[self.position + 1]
            } else {
                '\0'
            };
        }
        assert(self.position == start);
        if char_is_alphabetic(ch) || ch == '_' {
            return self.read_identifier_or_keyword();
        }
        if char_is_ascii_digit(ch) {
            return self.read_number();
        }
        if ch == '"' {
            return self.read_string();
        }
        if (ch == '=' && next_ch == '=') || (ch == '!' && next_ch == '=') || (ch == '<' && next_ch
            == '=') || (ch == '>' && next_ch == '=') || (ch == '-' && next_ch == '>') || (ch == '&'
            && next_ch == '&') || (ch == '|' && next_ch == '|') {
            self.position = self.position + 2;
            let mut op = char_to_string(ch);
            let second = char_to_string(next_ch);
            op.append(second.as_str());
            assert(op@ =~= seq![ch, next_ch]);
            return Token::Operator(op);
        }
        self.position = self.position + 1;
        if ch == '+' || ch == '-' || ch == '*' || ch == '/' || ch == '=' || ch == '<' || ch == '>'
            || ch == '!' {
            return Token::Operator(char_to_string(ch));
        }
        Token::Symbol(ch)
    }

    /// Moves past whitespace.
    fn skip_whitespace(&mut self)
        ensures
            final(self).text() == old(self).text(),
            final(self).pos() == scan_while(old(self).text(), old(self).pos(), whitespace_class()),
    {
        proof {
            use_type_invariant(&*self);
            lemma_scan_bounds(self.input@, self.position as int, whitespace_class());
        }
        let ghost input = self.input@;
        let ghost target = scan_while(input, self.position as int, whitespace_class());
        let n = self.input.len();
        while self.position < n && char_is_whitespace(self.input[self.position])
            invariant
                self.input@ == input,
                n == input.len(),
                n < usize::MAX,
                self.position <= n + 1,
                scan_while(input, self.position as int, whitespace_class()) == target,
            decreases n - self.position,
        {
            self.position = self.position + 1;
        }
    }

    /// Reads a keyword or an identifier starting at the current position.
    fn read_identifier_or_keyword(&mut self) -> (t: Token)
        requires
            old(self).pos() < old(self).text().len(),
            is_alphabetic_char(old(self).text()[old(self).pos()]) || old(self).text()[old(
                self,
            ).pos()] == '_',
        ensures
            final(self).text() == old(self).text(),
            (t@, final(self).pos()) == token_at(old(self).text(), old(self).pos()),
            final(self).pos() <= final(self).text().len() + 1,
    {
        proof {
            use_type_invariant(&*self);
            lemma_scan_bounds(self.input@, self.position + 1, word_class());
        }
        let ghost input = self.input@;
        let ghost target = scan_while(input, self.position + 1, word_class());
        let start = self.position;
        let n = self.input.len();
        while self.position < n && (char_is_alphanumeric(self.input[self.position])
            || self.input[self.position] == '_')
            invariant
                self.input@ == input,
                n == input.len(),
                n < usize::MAX,
                start < n,
                target == scan_while(input, start + 1, word_class()),
                start <= self.position <= n,
                self.position == start ==> (is_alphabetic_char(input[start as int]) || input[start as int] == '_'),
                self.position > start ==> scan_while(input, self.position as int, word_class()) == target,
            decreases n - self.position,
        {
            proof {
                let p = self.position as int;
                assert(word_class()(input[p]));
                assert(scan_while(input, p, word_class()) == scan_while(input, p + 1, word_class()));
            }
            self.position = self.position + 1;
        }
        let text = collect_chars(&self.input, start, self.position);
        if is_keyword_text(text.as_str()) {
            Token::Keyword(text)
        } else {
            Token::Identifier(text)
        }
    }

    /// Reads a string literal whose opening quote is at the current position.
    fn read_string(&mut self) -> (t: Token)
        requires
            old(self).pos() < old(self).text().len(),
            old(self).text()[old(self).pos()] == '"',
            !is_alphabetic_char(old(self).text()[old(self).pos()]),
        ensures
            final(self).text() == old(self).text(),
            (t@, final(self).pos()) == token_at(old(self).text(), old(self).pos()),
            final(self).pos() <= final(self).text().len() + 1,
    {
        proof {
            use_type_invariant(&*self);
            lemma_scan_bounds(self.input@, self.position + 1, string_body_class());
        }
        let ghost input = self.input@;
        let ghost target = scan_while(input, self.position + 1, string_body_class());
        self.position = self.position + 1;
        let start = self.position;
        let n = self.input.len();
        while self.position < n && self.input[self.position] != '"'
            invariant
                self.input@ == input,
                n == input.len(),
                n < usize::MAX,
                start <= self.position <= n,
                scan_while(input, self.position as int, string_body_class()) == target,
            decreases n - self.position,
        {
            self.position = self.position + 1;
        }
        let text = collect_chars(&self.input, start, self.position);
        self.position = self.position + 1;
        Token::StringLiteral(text)
    }

    /// Reads a number literal (digits and dots) starting at the current position.
    fn read_number(&mut self) -> (t: Token)
        requires
            old(self).pos() < old(self).text().len(),
            is_digit_char(old(self).text()[old(self).pos()]),
            !is_alphabetic_char(old(self).text()[old(self).pos()]),
        ensures
            final(self).text() == old(self).text(),
            (t@, final(self).pos()) == token_at(old(self).text(), old(self).pos()),
            final(self).pos() <= final(self).text().len() + 1,
    {
        proof {
            use_type_invariant(&*self);
            lemma_scan_bounds(self.input@, self.position as int, number_class());
        }
        let ghost input = self.input@;
        let ghost target = scan_while(input, self.position as int, number_class());
        let start = self.position;
        let n = self.input.len();
        while self.position < n && (char_is_ascii_digit(self.input[self.position])
            || self.input[self.position] == '.')
            invariant
                self.input@ == input,
                n == input.len(),
                n < usize::MAX,
                start <= self.position <= n,
                scan_while(input, self.position as int, number_class()) == target,
            decreases n - self.position,
        {
            self.position = self.position + 1;
        }
        Token::Number(collect_chars(&self.input, start, self.position))
    }
}

/// Whether `text` is one of the reserved words.
fn is_keyword_text(text: &str) -> (r: bool)
    ensures
        r == is_keyword(text@),
{
    text_is(text, "actor") || text_is(text, "fn") || text_is(text, "let") || text_is(text, "return")
        || text_is(text, "print") || text_is(text, "if") || text_is(text, "else") || text_is(
        text,
        "while",
    ) || text_is(text, "for") || text_is(text, "in") || text_is(text, "true") || text_is(
        text,
        "false",
    ) || text_is(text, "import")
}

} // verus!
