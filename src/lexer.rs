use vstd::prelude::*;

use crate::text::{
    chars_of, continues_number, continues_word, char_is_alphanumeric, char_is_numeric, is_digit, same_chars,
    string_of,
};
use crate::token::{token_views, Token, TokenType};

verus! {

/// Why source text could not be split into tokens.
#[derive(Debug, Clone, PartialEq, Eq)]
pub enum LexError {
    /// A character that no token starts with, and its position (in characters).
    UnexpectedCharacter(char, usize),
    /// A word that is not accepted where only keywords are; the keyword table
    /// used here turns every other word into an identifier, so `tokenize`
    /// never reports it.
    UnknownIdentifier(String),
}

/// The view of a token: its kind and its text.
pub type TokenView = (TokenType, Seq<char>);

/// White space: the characters with Unicode's White_Space property.
pub open spec fn is_space(c: char) -> bool {
    ||| '\t' <= c <= '\r'
    ||| c == ' '
    ||| c == '\u{85}'
    ||| c == '\u{A0}'
    ||| c == '\u{1680}'
    ||| '\u{2000}' <= c <= '\u{200A}'
    ||| c == '\u{2028}'
    ||| c == '\u{2029}'
    ||| c == '\u{202F}'
    ||| c == '\u{205F}'
    ||| c == '\u{3000}'
}

/// An ASCII letter.
pub open spec fn is_letter(c: char) -> bool {
    'a' <= c <= 'z' || 'A' <= c <= 'Z'
}

/// A character that may continue an identifier or keyword: a letter or
/// digit (in Unicode's sense) or `_`.
pub open spec fn is_word_char(c: char) -> bool {
    continues_word(c) || c == '_'
}

/// The first position at or after `pos` that does not hold white space.
pub open spec fn skip_space(s: Seq<char>, pos: nat) -> nat
    decreases s.len() - pos,
{
    if pos < s.len() && is_space(s[pos as int]) {
        skip_space(s, pos + 1)
    } else {
        pos
    }
}

/// The end of the run of numeric characters (in Unicode's sense) that starts at `pos`.
pub open spec fn digits_end(s: Seq<char>, pos: nat) -> nat
    decreases s.len() - pos,
{
    if pos < s.len() && continues_number(s[pos as int]) {
        digits_end(s, pos + 1)
    } else {
        pos
    }
}

/// The end of the run of word characters that starts at `pos`.
pub open spec fn word_end(s: Seq<char>, pos: nat) -> nat
    decreases s.len() - pos,
{
    if pos < s.len() && is_word_char(s[pos as int]) {
        word_end(s, pos + 1)
    } else {
        pos
    }
}

/// The kind of a word: a keyword, or else an identifier.
pub open spec fn keyword_kind(w: Seq<char>) -> TokenType {
    if w == seq!['p', 'r', 'i', 'n', 't'] {
        TokenType::Print
    } else if w == seq!['l', 'e', 't'] {
        TokenType::Let
    } else if w == seq!['v', 'a', 'r'] {
        TokenType::Var
    } else {
        TokenType::Identifier
    }
}

/// The kind of a token made of the single character `c`, if there is one.
pub open spec fn punctuation_kind(c: char) -> Option<TokenType> {
    if c == '(' {
        Some(TokenType::LeftParen)
    } else if c == ')' {
        Some(TokenType::RightParen)
    } else if c == ':' {
        Some(TokenType::Colon)
    } else if c == '=' {
        Some(TokenType::Assign)
    } else if c == '+' {
        Some(TokenType::Plus)
    } else if c == '-' {
        Some(TokenType::Minus)
    } else if c == '*' {
        Some(TokenType::Star)
    } else if c == '/' {
        Some(TokenType::Slash)
    } else {
        None
    }
}

/// The token that starts after the white space at `pos`, and the position after it.
pub open spec fn token_at(s: Seq<char>, pos: nat) -> Result<(TokenView, nat), LexError> {
    let p = skip_space(s, pos);
    if p >= s.len() {
        Ok(((TokenType::EndOfInput, Seq::<char>::empty()), p))
    } else {
        let c = s[p as int];
        if is_digit(c) {
            let e = digits_end(s, p);
            Ok(((TokenType::Number, s.subrange(p as int, e as int)), e))
        } else if is_letter(c) {
            let e = word_end(s, p);
            let w = s.subrange(p as int, e as int);
            Ok(((keyword_kind(w), w), e))
        } else {
            match punctuation_kind(c) {
                Some(k) => Ok(((k, seq![c]), p + 1)),
                None => Err(LexError::UnexpectedCharacter(c, p as usize)),
            }
        }
    }
}

pub proof fn lemma_skip_space(s: Seq<char>, pos: nat)
    ensures
        pos <= skip_space(s, pos),
        pos <= s.len() ==> skip_space(s, pos) <= s.len(),
        skip_space(s, pos) < s.len() ==> !is_space(s[skip_space(s, pos) as int]),
        forall|i: int| pos <= i < skip_space(s, pos) ==> is_space(#[trigger] s[i]),
    decreases s.len() - pos,
{
    if pos < s.len() && is_space(s[pos as int]) {
        lemma_skip_space(s, pos + 1);
    }
}

pub proof fn lemma_digits_end(s: Seq<char>, pos: nat)
    ensures
        pos <= digits_end(s, pos),
        pos <= s.len() ==> digits_end(s, pos) <= s.len(),
        digits_end(s, pos) < s.len() ==> !continues_number(s[digits_end(s, pos) as int]),
        forall|i: int| pos <= i < digits_end(s, pos) ==> continues_number(#[trigger] s[i]),
    decreases s.len() - pos,
{
    if pos < s.len() && continues_number(s[pos as int]) {
        lemma_digits_end(s, pos + 1);
    }
}

pub proof fn lemma_word_end(s: Seq<char>, pos: nat)
    ensures
        pos <= word_end(s, pos),
        pos <= s.len() ==> word_end(s, pos) <= s.len(),
        word_end(s, pos) < s.len() ==> !is_word_char(s[word_end(s, pos) as int]),
        forall|i: int| pos <= i < word_end(s, pos) ==> is_word_char(#[trigger] s[i]),
    decreases s.len() - pos,
{
    if pos < s.len() && is_word_char(s[pos as int]) {
        lemma_word_end(s, pos + 1);
    }
}

/// Every token but the end of input takes at least one character.
pub proof fn lemma_token_advances(s: Seq<char>, pos: nat)
    ensures
        token_at(s, pos) matches Ok((t, p)) ==> t.0 != TokenType::EndOfInput ==> pos < p <= s.len(),
{
    lemma_skip_space(s, pos);
    let p = skip_space(s, pos);
    if p < s.len() {
        lemma_digits_end(s, p);
        lemma_word_end(s, p);
        if is_digit(s[p as int]) {
            lemma_digits_end(s, p + 1);
        }
        if is_letter(s[p as int]) {
            lemma_word_end(s, p + 1);
        }
    }
}

/// The tokens of `s` from `pos` on, after those in `acc`, through the end of input.
pub open spec fn lex_from(s: Seq<char>, pos: nat, acc: Seq<TokenView>) -> Result<Seq<TokenView>, LexError>
    decreases s.len() - pos,
{
    match token_at(s, pos) {
        Err(e) => Err(e),
        Ok((t, p)) => {
            if t.0 == TokenType::EndOfInput {
                Ok(acc.push(t))
            } else {
                proof {
                    lemma_token_advances(s, pos);
                }
                lex_from(s, p, acc.push(t))
            }
        },
    }
}

/// The tokens of the source text `s`, through one end-of-input token, or the
/// first character that no token starts with.
pub open spec fn lex(s: Seq<char>) -> Result<Seq<TokenView>, LexError> {
    lex_from(s, 0, Seq::empty())
}

/// A character that neither belongs to a token nor is skipped.
pub open spec fn is_stray(c: char) -> bool {
    !is_space(c) && !is_word_char(c) && !continues_number(c) && punctuation_kind(c) is None
}

proof fn lemma_lex_from_stops_before(s: Seq<char>, pos: nat, acc: Seq<TokenView>, i: int)
    requires
        pos <= i < s.len(),
        s.len() <= usize::MAX,
        is_stray(s[i]),
    ensures
        lex_from(s, pos, acc) matches Err(LexError::UnexpectedCharacter(c, p)) && pos <= p <= i && s[p as int] == c,
    decreases s.len() - pos,
{
    lemma_skip_space(s, pos);
    let p = skip_space(s, pos);
    assert(p <= i) by {
        if p > i {
            assert(is_space(s[i]));
        }
    }
    let c = s[p as int];
    lemma_token_advances(s, pos);
    if is_digit(c) {
        lemma_digits_end(s, p);
        let e = digits_end(s, p);
        assert(e <= i) by {
            if e > i {
                assert(continues_number(s[i]));
            }
        }
        lemma_lex_from_stops_before(s, e, acc.push((TokenType::Number, s.subrange(p as int, e as int))), i);
    } else if is_letter(c) {
        lemma_word_end(s, p);
        let e = word_end(s, p);
        assert(e <= i) by {
            if e > i {
                assert(is_word_char(s[i]));
            }
        }
        let w = s.subrange(p as int, e as int);
        lemma_lex_from_stops_before(s, e, acc.push((keyword_kind(w), w)), i);
    } else if let Some(k) = punctuation_kind(c) {
        lemma_lex_from_stops_before(s, p + 1, acc.push((k, seq![c])), i);
    }
}

/// Source text that holds a character outside the lexical grammar, such as
/// `@`, is refused: the result is an unexpected-character error, no tokens
/// are returned, and the error names a character at or before the first
/// such one.
pub proof fn lemma_stray_character_rejected(s: Seq<char>, i: int)
    requires
        0 <= i < s.len(),
        s.len() <= usize::MAX,
        is_stray(s[i]),
    ensures
        lex(s) matches Err(LexError::UnexpectedCharacter(c, p)) && p <= i && s[p as int] == c,
{
    lemma_lex_from_stops_before(s, 0, Seq::empty(), i);
}

/// In particular, source text that holds `@` is refused.
pub proof fn lemma_at_sign_rejected(s: Seq<char>, i: int)
    requires
        0 <= i < s.len(),
        s.len() <= usize::MAX,
        s[i] == '@',
    ensures
        lex(s) matches Err(LexError::UnexpectedCharacter(c, p)) && p <= i && s[p as int] == c,
{
    lemma_stray_character_rejected(s, i);
}

proof fn lemma_lex_from_ends(s: Seq<char>, pos: nat, acc: Seq<TokenView>)
    ensures
        lex_from(s, pos, acc) matches Ok(ts) ==> ts.len() > 0 && ts.last().0 == TokenType::EndOfInput,
    decreases s.len() - pos,
{
    if let Ok((t, p)) = token_at(s, pos) {
        if t.0 != TokenType::EndOfInput {
            lemma_token_advances(s, pos);
            lemma_lex_from_ends(s, p, acc.push(t));
        }
    }
}

/// The tokens of any source text end with exactly one end-of-input token.
pub proof fn lemma_lex_ends_with_end(s: Seq<char>)
    ensures
        lex(s) matches Ok(ts) ==> ts.len() > 0 && ts.last().0 == TokenType::EndOfInput && forall|i: int|
            0 <= i < ts.len() - 1 ==> (#[trigger] ts[i]).0 != TokenType::EndOfInput,
{
    lemma_lex_from_ends(s, 0, Seq::empty());
    lemma_lex_from_single_end(s, 0, Seq::empty());
}

proof fn lemma_lex_from_single_end(s: Seq<char>, pos: nat, acc: Seq<TokenView>)
    requires
        forall|i: int| 0 <= i < acc.len() ==> (#[trigger] acc[i]).0 != TokenType::EndOfInput,
    ensures
        lex_from(s, pos, acc) matches Ok(ts) ==> forall|i: int| 0 <= i < ts.len() - 1 ==> (#[trigger] ts[i]).0
            != TokenType::EndOfInput,
    decreases s.len() - pos,
{
    if let Ok((t, p)) = token_at(s, pos) {
        if t.0 != TokenType::EndOfInput {
            lemma_token_advances(s, pos);
            lemma_lex_from_single_end(s, p, acc.push(t));
        } else {
            assert forall|i: int| 0 <= i < acc.push(t).len() - 1 implies (#[trigger] acc.push(t)[i]).0
                != TokenType::EndOfInput by {
                assert(acc.push(t)[i] == acc[i]);
            }
        }
    }
}

proof fn lemma_runs_agree_on_prefix(s: Seq<char>, i: int, pos: nat)
    requires
        pos <= i < s.len(),
        is_stray(s[i]),
    ensures
        skip_space(s, pos) == skip_space(s.subrange(0, i), pos),
        digits_end(s, pos) == digits_end(s.subrange(0, i), pos),
        word_end(s, pos) == word_end(s.subrange(0, i), pos),
    decreases i - pos,
{
    let t = s.subrange(0, i);
    if pos < i {
        assert(t[pos as int] == s[pos as int]);
        lemma_runs_agree_on_prefix(s, i, pos + 1);
    }
}

proof fn lemma_lex_from_prefix(s: Seq<char>, i: int, pos: nat, acc: Seq<TokenView>)
    requires
        pos <= i < s.len(),
        s.len() <= usize::MAX,
        is_stray(s[i]),
        lex_from(s.subrange(0, i), pos, acc) is Ok,
    ensures
        lex_from(s, pos, acc) == Err::<Seq<TokenView>, LexError>(LexError::UnexpectedCharacter(s[i], i as usize)),
    decreases i - pos,
{
    let t = s.subrange(0, i);
    lemma_runs_agree_on_prefix(s, i, pos);
    lemma_skip_space(t, pos);
    let p = skip_space(s, pos);
    if p < i {
        assert(t[p as int] == s[p as int]);
        lemma_runs_agree_on_prefix(s, i, p);
        lemma_digits_end(t, p);
        lemma_word_end(t, p);
        lemma_token_advances(t, pos);
        let c = s[p as int];
        if is_digit(c) {
            assert(s.subrange(p as int, digits_end(s, p) as int) =~= t.subrange(p as int, digits_end(t, p) as int));
        } else if is_letter(c) {
            assert(s.subrange(p as int, word_end(s, p) as int) =~= t.subrange(p as int, word_end(t, p) as int));
        }
        assert(token_at(s, pos) == token_at(t, pos));
        let (tok, q) = token_at(t, pos)->Ok_0;
        lemma_lex_from_prefix(s, i, q, acc.push(tok));
    }
}

/// Source text whose first stray character (such as `@`) follows only white
/// space and whole tokens is refused exactly there: the result is an
/// unexpected-character error naming that character and its position, and no
/// tokens are returned.
pub proof fn lemma_stray_character_reported_exactly(s: Seq<char>, i: int)
    requires
        0 <= i < s.len(),
        s.len() <= usize::MAX,
        is_stray(s[i]),
        lex(s.subrange(0, i)) is Ok,
    ensures
        lex(s) == Err::<Seq<TokenView>, LexError>(LexError::UnexpectedCharacter(s[i], i as usize)),
{
    lemma_lex_from_prefix(s, i, 0, Seq::empty());
}

/// In particular, when the text before the first `@` lexes, the error is
/// `UnexpectedCharacter('@', i)` for the position `i` of that `@`.
pub proof fn lemma_at_sign_reported_exactly(s: Seq<char>, i: int)
    requires
        0 <= i < s.len(),
        s.len() <= usize::MAX,
        s[i] == '@',
        lex(s.subrange(0, i)) is Ok,
    ensures
        lex(s) == Err::<Seq<TokenView>, LexError>(LexError::UnexpectedCharacter('@', i as usize)),
{
    lemma_stray_character_reported_exactly(s, i);
}

/// A cursor over the characters of source text.
pub struct Lexer {
    input: Vec<char>,
    position: usize,
    current_char: Option<char>,
}

fn is_space_char(c: char) -> (r: bool)
    ensures
        r == is_space(c),
{
    ('\t' <= c && c <= '\r') || c == ' ' || c == '\u{85}' || c == '\u{A0}' || c == '\u{1680}' || ('\u{2000}'
        <= c && c <= '\u{200A}') || c == '\u{2028}' || c == '\u{2029}' || c == '\u{202F}' || c == '\u{205F}'
        || c == '\u{3000}'
}

fn is_digit_char(c: char) -> (r: bool)
    ensures
        r == is_digit(c),
{
    '0' <= c && c <= '9'
}

fn is_letter_char(c: char) -> (r: bool)
    ensures
        r == is_letter(c),
{
    ('a' <= c && c <= 'z') || ('A' <= c && c <= 'Z')
}

impl Lexer {
    pub closed spec fn chars(&self) -> Seq<char> {
        self.input@
    }

    pub closed spec fn pos(&self) -> nat {
        self.position as nat
    }

    pub closed spec fn wf(&self) -> bool {
        &&& self.position <= self.input@.len()
        &&& self.current_char == if self.position < self.input@.len() {
            Some(self.input@[self.position as int])
        } else {
            None
        }
    }

    pub fn new(input: String) -> (r: Lexer)
        ensures
            r.wf(),
            r.chars() == input@,
            r.pos() == 0,
    {
        let chars = chars_of(input.as_str());
        let current = if chars.len() == 0 {
            None
        } else {
            Some(chars[0])
        };
        Lexer { input: chars, position: 0, current_char: current }
    }

    fn advance(&mut self)
        requires
            old(self).wf(),
            old(self).position < old(self).input@.len(),
        ensures
            final(self).wf(),
            final(self).input == old(self).input,
            final(self).position == old(self).position + 1,
    {
        let input_len = self.input.len();
        assert(self.position + 1 <= input_len);
        self.position = self.position + 1;
        if self.position >= self.input.len() {
            self.current_char = None;
        } else {
            self.current_char = Some(self.input[self.position]);
        }
    }

    fn skip_whitespace(&mut self)
        requires
            old(self).wf(),
        ensures
            final(self).wf(),
            final(self).input == old(self).input,
            final(self).pos() == skip_space(old(self).chars(), old(self).pos()),
    {
        while self.current_char.is_some() && is_space_char(self.current_char.unwrap())
            invariant
                self.wf(),
                self.input == old(self).input,
                skip_space(self.chars(), self.pos()) == skip_space(old(self).chars(), old(self).pos()),
            decreases self.input@.len() - self.position,
        {
            self.advance();
        }
    }

    fn read_number(&mut self) -> (r: Vec<char>)
        requires
            old(self).wf(),
        ensures
            final(self).wf(),
            final(self).input == old(self).input,
            final(self).pos() == digits_end(old(self).chars(), old(self).pos()),
            r@ == old(self).chars().subrange(old(self).position as int, final(self).position as int),
    {
        let mut number: Vec<char> = Vec::new();
        let start = self.position;
        while self.current_char.is_some() && char_is_numeric(self.current_char.unwrap())
            invariant
                self.wf(),
                self.input == old(self).input,
                start == old(self).position,
                start <= self.position,
                number@ == self.chars().subrange(start as int, self.position as int),
                digits_end(self.chars(), self.pos()) == digits_end(old(self).chars(), old(self).pos()),
            decreases self.input@.len() - self.position,
        {
            number.push(self.current_char.unwrap());
            self.advance();
            assert(number@ =~= self.chars().subrange(start as int, self.position as int));
        }
        number
    }

    fn read_identifier(&mut self) -> (r: Vec<char>)
        requires
            old(self).wf(),
        ensures
            final(self).wf(),
            final(self).input == old(self).input,
            final(self).pos() == word_end(old(self).chars(), old(self).pos()),
            r@ == old(self).chars().subrange(old(self).position as int, final(self).position as int),
    {
        let mut word: Vec<char> = Vec::new();
        let start = self.position;
        while self.current_char.is_some() && (char_is_alphanumeric(self.current_char.unwrap())
            || self.current_char.unwrap() == '_')
            invariant
                self.wf(),
                self.input == old(self).input,
                start == old(self).position,
                start <= self.position,
                word@ == self.chars().subrange(start as int, self.position as int),
                word_end(self.chars(), self.pos()) == word_end(old(self).chars(), old(self).pos()),
            decreases self.input@.len() - self.position,
        {
            word.push(self.current_char.unwrap());
            self.advance();
            assert(word@ =~= self.chars().subrange(start as int, self.position as int));
        }
        word
    }

    /// Reads the next token, skipping white space before it.
    pub fn next_token(&mut self) -> (r: Result<Token, LexError>)
        requires
            old(self).wf(),
        ensures
            final(self).wf(),
            final(self).chars() == old(self).chars(),
            match token_at(old(self).chars(), old(self).pos()) {
                Ok((t, p)) => r matches Ok(tok) && tok@ == t && final(self).pos() == p,
                Err(e) => r == Err::<Token, LexError>(e),
            },
    {
        self.skip_whitespace();
        match self.current_char {
            None => Ok(Token::new(TokenType::EndOfInput, String::new())),
            Some(ch) => {
                if is_digit_char(ch) {
                    let number = self.read_number();
                    Ok(Token::new(TokenType::Number, string_of(&number)))
                } else if is_letter_char(ch) {
                    let word = self.read_identifier();
                    let kind = word_kind(&word);
                    Ok(Token::new(kind, string_of(&word)))
                } else {
                    match punctuation(ch) {
                        Some(kind) => {
                            self.advance();
                            let text = vec![ch];
                            proof {
                                assert(text@ =~= seq![ch]);
                            }
                            Ok(Token::new(kind, string_of(&text)))
                        },
                        None => Err(LexError::UnexpectedCharacter(ch, self.position)),
                    }
                }
            },
        }
    }
}

fn word_kind(w: &Vec<char>) -> (r: TokenType)
    ensures
        r == keyword_kind(w@),
{
    proof {
        reveal_strlit("print");
        reveal_strlit("let");
        reveal_strlit("var");
        assert("print"@ =~= seq!['p', 'r', 'i', 'n', 't']);
        assert("let"@ =~= seq!['l', 'e', 't']);
        assert("var"@ =~= seq!['v', 'a', 'r']);
    }
    if same_chars(w, &chars_of("print")) {
        TokenType::Print
    } else if same_chars(w, &chars_of("let")) {
        TokenType::Let
    } else if same_chars(w, &chars_of("var")) {
        TokenType::Var
    } else {
        TokenType::Identifier
    }
}

fn punctuation(c: char) -> (r: Option<TokenType>)
    ensures
        r == punctuation_kind(c),
{
    if c == '(' {
        Some(TokenType::LeftParen)
    } else if c == ')' {
        Some(TokenType::RightParen)
    } else if c == ':' {
        Some(TokenType::Colon)
    } else if c == '=' {
        Some(TokenType::Assign)
    } else if c == '+' {
        Some(TokenType::Plus)
    } else if c == '-' {
        Some(TokenType::Minus)
    } else if c == '*' {
        Some(TokenType::Star)
    } else if c == '/' {
        Some(TokenType::Slash)
    } else {
        None
    }
}

/// Splits source text into tokens, ending with one end-of-input token.
pub fn tokenize(input: &str) -> (r: Result<Vec<Token>, LexError>)
    ensures
        match r {
            Ok(ts) => lex(input@) == Ok::<Seq<TokenView>, LexError>(token_views(ts@)),
            Err(e) => lex(input@) == Err::<Seq<TokenView>, LexError>(e),
        },
{
    let mut lexer = Lexer::new(input.to_string());
    let mut tokens: Vec<Token> = Vec::new();
    proof {
        assert(token_views(tokens@) =~= Seq::empty());
    }
    loop
        invariant
            lexer.wf(),
            lexer.chars() == input@,
            lex_from(input@, lexer.pos(), token_views(tokens@)) == lex(input@),
        decreases input@.len() - lexer.pos(),
    {
        proof {
            lemma_token_advances(input@, lexer.pos());
        }
        let ghost before = tokens@;
        let token = match lexer.next_token() {
            Ok(t) => t,
            Err(e) => return Err(e),
        };
        let is_end = token.token_type == TokenType::EndOfInput;
        tokens.push(token);
        proof {
            assert(token_views(tokens@) =~= token_views(before).push(tokens@.last()@));
        }
        if is_end {
            return Ok(tokens);
        }
    }
}

} // verus!
