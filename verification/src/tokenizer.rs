//! Tokens and the lexer.

use vstd::prelude::*;
use vstd::string::StrSliceExecFns;
use crate::error::{CoreError, Fault};
use crate::number;

verus! {

broadcast use vstd::std_specs::vec::group_vec_axioms;

/// The six comparisons of a conditional.
#[derive(Clone, Copy, Debug, PartialEq, Eq, Structural)]
pub enum Compare {
    Equal,
    NotEqual,
    LessThan,
    GreaterThan,
    LessThanOrEqual,
    GreaterThanOrEqual,
}

/// The arithmetic operators. `Absent` is never lexed: it marks the absence of
/// an operator and ranks above all others.
#[derive(Clone, Copy, Debug, PartialEq, Eq, Structural)]
pub enum Operator {
    Plus,
    Minus,
    Multiply,
    Divide,
    Exponent,
    Log,
    Factorial,
    Absent,
}

/// The assignment operators.
#[derive(Clone, Copy, Debug, PartialEq, Eq, Structural)]
pub enum Operation {
    Assign,
    AddVar,
    SubtractVar,
    MultiplyVar,
    DivideVar,
}

/// The reserved words.
#[derive(Clone, Copy, Debug, PartialEq, Eq, Structural)]
pub enum Keyword {
    If,
    While,
}

/// One arithmetic operation on two values, for the host to carry out.
#[derive(Clone, Copy, Debug, PartialEq, Eq, Structural)]
pub struct Computation {
    pub operator: Operator,
    pub left: u64,
    pub right: u64,
}

impl Compare {
    /// What the comparison says of two values.
    pub open spec fn holds(self, a: u64, b: u64) -> bool {
        match self {
            Compare::Equal => number::same(a, b),
            Compare::NotEqual => !number::same(a, b),
            Compare::LessThan => number::below(a, b),
            Compare::GreaterThan => number::below(b, a),
            Compare::LessThanOrEqual => number::below(a, b) || number::same(a, b),
            Compare::GreaterThanOrEqual => number::below(b, a) || number::same(a, b),
        }
    }

    /// Compares two values, given by their bits, as IEEE-754 does.
    pub fn compare(&self, a: u64, b: u64) -> (r: bool)
        ensures
            r == self.holds(a, b),
    {
        match self {
            Compare::Equal => number::equal(a, b),
            Compare::NotEqual => !number::equal(a, b),
            Compare::LessThan => number::less(a, b),
            Compare::GreaterThan => number::less(b, a),
            Compare::LessThanOrEqual => number::less(a, b) || number::equal(a, b),
            Compare::GreaterThanOrEqual => number::less(b, a) || number::equal(a, b),
        }
    }
}

impl Operator {
    /// The rank of an operator: the higher, the tighter it binds.
    pub open spec fn rank(self) -> int {
        match self {
            Operator::Exponent | Operator::Log => 3,
            Operator::Multiply | Operator::Divide => 2,
            Operator::Plus | Operator::Minus => 1,
            Operator::Absent => 4,
            Operator::Factorial => 0,
        }
    }

    /// Whether `self` ranks at least as high as `b`.
    pub fn over(&self, b: Operator) -> (r: bool)
        ensures
            r == (self.rank() >= b.rank()),
    {
        self.priority() >= b.priority()
    }

    /// The rank of the operator.
    pub fn priority(&self) -> (r: i32)
        ensures
            r == self.rank(),
    {
        match self {
            Operator::Exponent | Operator::Log => 3,
            Operator::Multiply | Operator::Divide => 2,
            Operator::Plus | Operator::Minus => 1,
            Operator::Absent => 4,
            _ => 0,
        }
    }

    /// What applying the operator to two values calls for: a computation,
    /// or a failure for the factorial, for the mark of a missing operator,
    /// and for a division by zero.
    pub open spec fn operation(self, a: u64, b: u64) -> Result<Computation, Fault> {
        match self {
            Operator::Factorial | Operator::Absent => Err(Fault::Unsupported(self)),
            Operator::Divide => if number::is_zero(b) {
                Err(Fault::DivisionByZero)
            } else {
                Ok(Computation { operator: self, left: a, right: b })
            },
            _ => Ok(Computation { operator: self, left: a, right: b }),
        }
    }

    /// Decides what applying the operator to two values calls for. The
    /// arithmetic itself is the host's.
    pub fn operate(&self, a: u64, b: u64) -> (r: Result<Computation, CoreError>)
        ensures
            match r {
                Ok(c) => self.operation(a, b) == Ok::<Computation, Fault>(c),
                Err(e) => self.operation(a, b) == Err::<Computation, Fault>(e@),
            },
    {
        match self {
            Operator::Factorial | Operator::Absent => Err(CoreError::Unsupported(*self)),
            Operator::Divide => if number::zero(b) {
                Err(CoreError::DivisionByZero)
            } else {
                Ok(Computation { operator: *self, left: a, right: b })
            },
            _ => Ok(Computation { operator: *self, left: a, right: b }),
        }
    }
}

impl Operation {
    /// The arithmetic operator by which a compound assignment combines the
    /// old value with the new one; plain assignment has none.
    pub open spec fn combiner(self) -> Operator {
        match self {
            Operation::Assign => Operator::Absent,
            Operation::AddVar => Operator::Plus,
            Operation::SubtractVar => Operator::Minus,
            Operation::MultiplyVar => Operator::Multiply,
            Operation::DivideVar => Operator::Divide,
        }
    }

    /// The arithmetic operator of the assignment.
    pub fn operator(&self) -> (r: Operator)
        ensures
            r == self.combiner(),
    {
        match self {
            Operation::Assign => Operator::Absent,
            Operation::AddVar => Operator::Plus,
            Operation::SubtractVar => Operator::Minus,
            Operation::MultiplyVar => Operator::Multiply,
            Operation::DivideVar => Operator::Divide,
        }
    }
}

/// A token. `Paren` holds what stood between a pair of parentheses and is
/// never lexed: folding makes it.
#[derive(Debug, PartialEq)]
pub enum Token {
    Name(String),
    Number(u64),
    Compare(Compare),
    Operator(Operator),
    Operation(Operation),
    Colon,
    Key(Keyword),
    ParenOpen,
    ParenClose,
    Paren(Vec<Token>),
}

/// The mathematical value of a token.
pub enum Tok {
    Name(Seq<char>),
    Number(u64),
    Compare(Compare),
    Operator(Operator),
    Operation(Operation),
    Colon,
    Key(Keyword),
    ParenOpen,
    ParenClose,
    Paren(Seq<Tok>),
}

/// The value of one token.
pub open spec fn model(t: Token) -> Tok
    decreases t,
{
    match t {
        Token::Name(s) => Tok::Name(s@),
        Token::Number(n) => Tok::Number(n),
        Token::Compare(c) => Tok::Compare(c),
        Token::Operator(o) => Tok::Operator(o),
        Token::Operation(o) => Tok::Operation(o),
        Token::Colon => Tok::Colon,
        Token::Key(k) => Tok::Key(k),
        Token::ParenOpen => Tok::ParenOpen,
        Token::ParenClose => Tok::ParenClose,
        Token::Paren(v) => Tok::Paren(
            Seq::new(
                v@.len(),
                |i: int|
                    if 0 <= i < v@.len() {
                        model(v@[i])
                    } else {
                        Tok::Colon
                    },
            ),
        ),
    }
}

impl View for Token {
    type V = Tok;

    open spec fn view(&self) -> Tok {
        model(*self)
    }
}

/// The values of a sequence of tokens.
pub open spec fn models(s: Seq<Token>) -> Seq<Tok> {
    Seq::new(s.len(), |i: int| s[i]@)
}

/// The value of a group is the group of its tokens' values.
pub proof fn paren_model(v: Vec<Token>)
    ensures
        Token::Paren(v)@ == Tok::Paren(models(v@)),
{
    let inner = Token::Paren(v)@->Paren_0;
    assert(inner.len() == v@.len());
    assert forall|i: int| 0 <= i < v@.len() implies inner[i] == models(v@)[i] by {
    }
    assert(inner =~= models(v@));
}

/// Pushing a token pushes its value.
pub proof fn models_push(s: Seq<Token>, t: Token)
    ensures
        models(s.push(t)) == models(s).push(t@),
{
    assert(models(s.push(t)) =~= models(s).push(t@));
}

/// Copies a token.
pub fn clone_token(t: &Token) -> (r: Token)
    ensures
        r@ == t@,
    decreases t,
{
    match t {
        Token::Name(s) => Token::Name(s.clone()),
        Token::Number(n) => Token::Number(*n),
        Token::Compare(c) => Token::Compare(*c),
        Token::Operator(o) => Token::Operator(*o),
        Token::Operation(o) => Token::Operation(*o),
        Token::Colon => Token::Colon,
        Token::Key(k) => Token::Key(*k),
        Token::ParenOpen => Token::ParenOpen,
        Token::ParenClose => Token::ParenClose,
        Token::Paren(v) => {
            let mut out: Vec<Token> = Vec::new();
            let mut i: usize = 0;
            while i < v.len()
                invariant
                    i <= v.len(),
                    out.len() == i,
                    decreases_to!(*t => *v),
                    forall|j: int| 0 <= j < i ==> out@[j]@ == v@[j]@,
                decreases v.len() - i,
            {
                out.push(clone_token(&v[i]));
                i += 1;
            }
            proof {
                paren_model(out);
                paren_model(*v);
                assert(models(out@) =~= models(v@));
            }
            Token::Paren(out)
        },
    }
}

/// Copies the tokens of `v` from `from` up to `to`.
pub fn clone_tokens(v: &Vec<Token>, from: usize, to: usize) -> (r: Vec<Token>)
    requires
        from <= to <= v.len(),
    ensures
        models(r@) == models(v@).subrange(from as int, to as int),
{
    let mut out: Vec<Token> = Vec::new();
    let mut i: usize = from;
    while i < to
        invariant
            from <= i <= to <= v.len(),
            out.len() == i - from,
            forall|j: int| 0 <= j < out.len() ==> out@[j]@ == v@[from + j]@,
        decreases to - i,
    {
        out.push(clone_token(&v[i]));
        i += 1;
    }
    assert(models(out@) =~= models(v@).subrange(from as int, to as int));
    out
}

impl Clone for Token {
    fn clone(&self) -> (r: Token)
        ensures
            r@ == self@,
    {
        clone_token(self)
    }
}

/// What the lexer yields: a finished token, or the text of a numeral whose
/// value the host has yet to read.
#[derive(Debug, PartialEq)]
pub enum Lexeme {
    Token(Token),
    Numeral(String),
}

/// The mathematical value of a lexeme.
pub enum Lexm {
    Token(Tok),
    Numeral(Seq<char>),
}

impl View for Lexeme {
    type V = Lexm;

    open spec fn view(&self) -> Lexm {
        match self {
            Lexeme::Token(t) => Lexm::Token(t@),
            Lexeme::Numeral(s) => Lexm::Numeral(s@),
        }
    }
}

/// The values of a sequence of lexemes.
pub open spec fn lexemes(s: Seq<Lexeme>) -> Seq<Lexm> {
    Seq::new(s.len(), |i: int| s[i]@)
}

/// What `char::is_alphabetic` says of a character.
pub uninterp spec fn alphabetic(c: char) -> bool;

/// What `char::is_numeric` says of a character.
pub uninterp spec fn numeric(c: char) -> bool;

/// What `char::is_whitespace` says of a character.
pub uninterp spec fn whitespace(c: char) -> bool;

/// Calls `char::is_alphabetic`, which says whether a character is
/// `Alphabetic` in the sense of the Unicode standard; the result is a fixed
/// function of the character.
#[verifier::external_body]
fn is_alphabetic(c: char) -> (r: bool)
    ensures
        r == alphabetic(c),
{
    c.is_alphabetic()
}

/// Calls `char::is_numeric`, which says whether a character is in one of
/// the general categories for numbers of the Unicode standard; the result is
/// a fixed function of the character.
#[verifier::external_body]
fn is_numeric(c: char) -> (r: bool)
    ensures
        r == numeric(c),
{
    c.is_numeric()
}

/// Calls `char::is_whitespace`, which says whether a character is
/// `White_Space` in the sense of the Unicode standard; the result is a fixed
/// function of the character.
#[verifier::external_body]
fn is_whitespace(c: char) -> (r: bool)
    ensures
        r == whitespace(c),
{
    c.is_whitespace()
}

/// The characters that symbols are made of.
pub open spec fn special(c: char) -> bool {
    c == '<' || c == '>' || c == '=' || c == '*' || c == '/' || c == '-' || c == '+' || c == '^'
}

/// The decimal digits.
pub open spec fn digit(c: char) -> bool {
    '0' <= c <= '9'
}

/// The characters that start a word.
pub open spec fn word_start(c: char) -> bool {
    alphabetic(c) || c == '_'
}

/// The characters that continue a word.
pub open spec fn word_part(c: char) -> bool {
    !whitespace(c) && (alphabetic(c) || numeric(c) || c == '_')
}

/// The token of a word: a reserved word, a constant, or a name.
pub open spec fn word(text: Seq<char>) -> Tok {
    if text == seq!['i', 'f'] {
        Tok::Key(Keyword::If)
    } else if text == seq!['w', 'l'] || text == seq!['w', 'h', 'i', 'l', 'e'] || text == seq![
        'd',
        'e',
        'l',
    ] {
        Tok::Key(Keyword::While)
    } else if text == seq!['P', 'I'] {
        Tok::Number(number::PI)
    } else if text == seq!['e'] {
        Tok::Number(number::E)
    } else {
        Tok::Name(text)
    }
}

/// The token of a symbol of two characters, if the two make one.
pub open spec fn symbol_pair(c: char, d: char) -> Option<Tok> {
    if c == '*' && d == '*' {
        Some(Tok::Operator(Operator::Exponent))
    } else if c == '/' && d == '/' {
        Some(Tok::Operator(Operator::Log))
    } else if c == '=' && d == '=' {
        Some(Tok::Compare(Compare::Equal))
    } else if c == '<' && d == '=' {
        Some(Tok::Compare(Compare::LessThanOrEqual))
    } else if c == '>' && d == '=' {
        Some(Tok::Compare(Compare::GreaterThanOrEqual))
    } else if c == '+' && d == '=' {
        Some(Tok::Operation(Operation::AddVar))
    } else if c == '-' && d == '=' {
        Some(Tok::Operation(Operation::SubtractVar))
    } else if c == '*' && d == '=' {
        Some(Tok::Operation(Operation::MultiplyVar))
    } else if c == '/' && d == '=' {
        Some(Tok::Operation(Operation::DivideVar))
    } else {
        None
    }
}

/// The token of a symbol of one character.
pub open spec fn symbol(c: char) -> Tok {
    if c == '+' {
        Tok::Operator(Operator::Plus)
    } else if c == '-' {
        Tok::Operator(Operator::Minus)
    } else if c == '*' {
        Tok::Operator(Operator::Multiply)
    } else if c == '/' {
        Tok::Operator(Operator::Divide)
    } else if c == '^' {
        Tok::Operator(Operator::Exponent)
    } else if c == '<' {
        Tok::Compare(Compare::LessThan)
    } else if c == '>' {
        Tok::Compare(Compare::GreaterThan)
    } else {
        Tok::Operation(Operation::Assign)
    }
}

/// How many characters of `s` from `i` on are word characters, up to the
/// first that is not.
pub open spec fn word_run(s: Seq<char>, i: int) -> nat
    decreases s.len() - i,
{
    if 0 <= i < s.len() && word_part(s[i]) {
        1 + word_run(s, i + 1)
    } else {
        0
    }
}

/// How many characters of `s` from `i` on are digits, up to the first that
/// is not.
pub open spec fn digit_run(s: Seq<char>, i: int) -> nat
    decreases s.len() - i,
{
    if 0 <= i < s.len() && digit(s[i]) {
        1 + digit_run(s, i + 1)
    } else {
        0
    }
}

/// Lexemes in front of those that follow them, unless what follows failed.
pub open spec fn and_then_lexemes(first: Seq<Lexm>, rest: Result<Seq<Lexm>, Fault>) -> Result<
    Seq<Lexm>,
    Fault,
> {
    match rest {
        Ok(more) => Ok(first + more),
        Err(e) => Err(e),
    }
}

/// The lexemes of `s` from position `i` on.
///
/// A word runs from a letter or underscore over all word characters. A
/// numeral runs from a digit over digits, one point and more digits; a
/// second point right behind it is a failure. A symbol is the longest entry
/// of the symbol table that starts at `i`. Parentheses and the colon stand
/// alone, whitespace separates, and any other character is a failure.
pub open spec fn lex(s: Seq<char>, i: int) -> Result<Seq<Lexm>, Fault>
    decreases s.len() - i,
    via lex_terminates
{
    if i < 0 || i >= s.len() {
        Ok(Seq::empty())
    } else {
        let c = s[i];
        if word_start(c) {
            let end = i + 1 + word_run(s, i + 1);
            and_then_lexemes(seq![Lexm::Token(word(s.subrange(i, end)))], lex(s, end))
        } else if digit(c) {
            let whole = i + 1 + digit_run(s, i + 1);
            if whole < s.len() && s[whole] == '.' {
                let end = whole + 1 + digit_run(s, whole + 1);
                if end < s.len() && s[end] == '.' {
                    Err(Fault::TwoPoints)
                } else {
                    and_then_lexemes(seq![Lexm::Numeral(s.subrange(i, end))], lex(s, end))
                }
            } else {
                and_then_lexemes(seq![Lexm::Numeral(s.subrange(i, whole))], lex(s, whole))
            }
        } else if c == '(' {
            and_then_lexemes(seq![Lexm::Token(Tok::ParenOpen)], lex(s, i + 1))
        } else if c == ')' {
            and_then_lexemes(seq![Lexm::Token(Tok::ParenClose)], lex(s, i + 1))
        } else if c == ':' {
            and_then_lexemes(seq![Lexm::Token(Tok::Colon)], lex(s, i + 1))
        } else if special(c) {
            if i + 1 < s.len() && symbol_pair(c, s[i + 1]) is Some {
                and_then_lexemes(
                    seq![Lexm::Token(symbol_pair(c, s[i + 1])->0)],
                    lex(s, i + 2),
                )
            } else {
                and_then_lexemes(seq![Lexm::Token(symbol(c))], lex(s, i + 1))
            }
        } else if whitespace(c) {
            lex(s, i + 1)
        } else {
            Err(Fault::IncorrectChar(c))
        }
    }
}

/// A run ends inside the text.
pub proof fn runs_end_inside(s: Seq<char>, i: int)
    requires
        0 <= i <= s.len(),
    ensures
        i + word_run(s, i) <= s.len(),
        i + digit_run(s, i) <= s.len(),
    decreases s.len() - i,
{
    if i < s.len() {
        runs_end_inside(s, i + 1);
    }
}

/// Each lexeme ends behind where it starts, and inside the text.
#[via_fn]
proof fn lex_terminates(s: Seq<char>, i: int) {
    if 0 <= i < s.len() {
        runs_end_inside(s, i + 1);
        let whole = i + 1 + digit_run(s, i + 1);
        if whole < s.len() {
            runs_end_inside(s, whole + 1);
        }
    }
}

/// Whether a character is one that symbols are made of.
pub fn is_special(c: char) -> (r: bool)
    ensures
        r == special(c),
{
    c == '<' || c == '>' || c == '=' || c == '*' || c == '/' || c == '-' || c == '+' || c == '^'
}

/// Whether a character is a decimal digit.
fn is_digit(c: char) -> (r: bool)
    ensures
        r == digit(c),
{
    '0' <= c && c <= '9'
}

/// Whether a character continues a word.
fn is_word_part(c: char) -> (r: bool)
    ensures
        r == word_part(c),
{
    !is_whitespace(c) && (is_alphabetic(c) || is_numeric(c) || c == '_')
}

/// Whether two texts hold the same characters.
pub fn same_text(a: &str, b: &str) -> (r: bool)
    ensures
        r == (a@ == b@),
{
    let n = a.unicode_len();
    if n != b.unicode_len() {
        return false;
    }
    let mut i: usize = 0;
    while i < n
        invariant
            i <= n,
            n == a@.len(),
            n == b@.len(),
            forall|j: int| 0 <= j < i ==> a@[j] == b@[j],
        decreases n - i,
    {
        if a.get_char(i) != b.get_char(i) {
            return false;
        }
        i += 1;
    }
    assert(a@ =~= b@);
    true
}

/// The token of a word: `if`, `while` and its aliases are reserved, `PI`
/// and `e` are constants, anything else is a name.
pub fn tokenize_name(name: String) -> (r: Token)
    ensures
        r@ == word(name@),
{
    proof {
        reveal_strlit("if");
        reveal_strlit("wl");
        reveal_strlit("while");
        reveal_strlit("del");
        reveal_strlit("PI");
        reveal_strlit("e");
        assert("if"@ =~= seq!['i', 'f']);
        assert("wl"@ =~= seq!['w', 'l']);
        assert("while"@ =~= seq!['w', 'h', 'i', 'l', 'e']);
        assert("del"@ =~= seq!['d', 'e', 'l']);
        assert("PI"@ =~= seq!['P', 'I']);
        assert("e"@ =~= seq!['e']);
    }
    if same_text(name.as_str(), "if") {
        Token::Key(Keyword::If)
    } else if same_text(name.as_str(), "wl") || same_text(name.as_str(), "while") || same_text(
        name.as_str(),
        "del",
    ) {
        Token::Key(Keyword::While)
    } else if same_text(name.as_str(), "PI") {
        Token::Number(number::PI)
    } else if same_text(name.as_str(), "e") {
        Token::Number(number::E)
    } else {
        Token::Name(name)
    }
}

/// The token of the symbol that starts with `c`, given the character behind
/// it if there is one, and whether the symbol took both; `None` where `c`
/// starts no symbol.
pub fn tokenize_special(c: char, next: Option<char>) -> (r: Option<(Token, bool)>)
    ensures
        r is Some <==> special(c),
        r matches Some((token, both)) ==> {
            &&& both == (next is Some && symbol_pair(c, next->0) is Some)
            &&& both ==> token@ == symbol_pair(c, next->0)->0
            &&& !both ==> token@ == symbol(c)
        },
{
    if !is_special(c) {
        return None;
    }
    if let Some(d) = next {
        if c == '*' && d == '*' {
            return Some((Token::Operator(Operator::Exponent), true));
        } else if c == '/' && d == '/' {
            return Some((Token::Operator(Operator::Log), true));
        } else if c == '=' && d == '=' {
            return Some((Token::Compare(Compare::Equal), true));
        } else if c == '<' && d == '=' {
            return Some((Token::Compare(Compare::LessThanOrEqual), true));
        } else if c == '>' && d == '=' {
            return Some((Token::Compare(Compare::GreaterThanOrEqual), true));
        } else if c == '+' && d == '=' {
            return Some((Token::Operation(Operation::AddVar), true));
        } else if c == '-' && d == '=' {
            return Some((Token::Operation(Operation::SubtractVar), true));
        } else if c == '*' && d == '=' {
            return Some((Token::Operation(Operation::MultiplyVar), true));
        } else if c == '/' && d == '=' {
            return Some((Token::Operation(Operation::DivideVar), true));
        }
    }
    let single = if c == '+' {
        Token::Operator(Operator::Plus)
    } else if c == '-' {
        Token::Operator(Operator::Minus)
    } else if c == '*' {
        Token::Operator(Operator::Multiply)
    } else if c == '/' {
        Token::Operator(Operator::Divide)
    } else if c == '^' {
        Token::Operator(Operator::Exponent)
    } else if c == '<' {
        Token::Compare(Compare::LessThan)
    } else if c == '>' {
        Token::Compare(Compare::GreaterThan)
    } else {
        Token::Operation(Operation::Assign)
    };
    Some((single, false))
}

/// The end of the run of word characters that starts at `from`.
fn word_end(input: &str, from: usize, n: usize) -> (end: usize)
    requires
        from <= n,
        n == input@.len(),
    ensures
        end == from + word_run(input@, from as int),
        end <= n,
{
    let mut j: usize = from;
    while j < n && is_word_part(input.get_char(j))
        invariant
            from <= j <= n,
            n == input@.len(),
            from + word_run(input@, from as int) == j + word_run(input@, j as int),
        decreases n - j,
    {
        j += 1;
    }
    j
}

/// The end of the run of digits that starts at `from`.
fn digits_end(input: &str, from: usize, n: usize) -> (end: usize)
    requires
        from <= n,
        n == input@.len(),
    ensures
        end == from + digit_run(input@, from as int),
        end <= n,
{
    let mut j: usize = from;
    while j < n && is_digit(input.get_char(j))
        invariant
            from <= j <= n,
            n == input@.len(),
            from + digit_run(input@, from as int) == j + digit_run(input@, j as int),
        decreases n - j,
    {
        j += 1;
    }
    j
}

/// The part of `input` between two positions, as a text of its own.
fn part(input: &str, from: usize, to: usize) -> (r: String)
    requires
        from <= to <= input@.len(),
    ensures
        r@ == input@.subrange(from as int, to as int),
{
    input.substring_char(from, to).to_owned()
}

/// Splits a line into lexemes.
///
/// The result is `lex` of the whole line: the lexemes in order, or the
/// first failure met from the left.
pub fn tokenize2(input: &str) -> (r: Result<Vec<Lexeme>, CoreError>)
    ensures
        match r {
            Ok(found) => lex(input@, 0) == Ok::<Seq<Lexm>, Fault>(lexemes(found@)),
            Err(e) => lex(input@, 0) == Err::<Seq<Lexm>, Fault>(e@),
        },
{
    let n = input.unicode_len();
    let mut found: Vec<Lexeme> = Vec::new();
    let mut i: usize = 0;
    assert(lexemes(found@) + lex(input@, 0)->Ok_0 =~= lex(input@, 0)->Ok_0);
    while i < n
        invariant
            i <= n,
            n == input@.len(),
            lex(input@, 0) == and_then_lexemes(lexemes(found@), lex(input@, i as int)),
        decreases n - i,
    {
        let c = input.get_char(i);
        let ghost before = lexemes(found@);
        let ghost start = i;
        let lexeme: Option<Lexeme>;
        let next: usize;
        if is_alphabetic(c) || c == '_' {
            let end = word_end(input, i + 1, n);
            lexeme = Some(Lexeme::Token(tokenize_name(part(input, i, end))));
            next = end;
        } else if is_digit(c) {
            let whole = digits_end(input, i + 1, n);
            if whole < n && input.get_char(whole) == '.' {
                let end = digits_end(input, whole + 1, n);
                if end < n && input.get_char(end) == '.' {
                    return Err(CoreError::TwoPoints);
                }
                lexeme = Some(Lexeme::Numeral(part(input, i, end)));
                next = end;
            } else {
                lexeme = Some(Lexeme::Numeral(part(input, i, whole)));
                next = whole;
            }
        } else if c == '(' {
            lexeme = Some(Lexeme::Token(Token::ParenOpen));
            next = i + 1;
        } else if c == ')' {
            lexeme = Some(Lexeme::Token(Token::ParenClose));
            next = i + 1;
        } else if c == ':' {
            lexeme = Some(Lexeme::Token(Token::Colon));
            next = i + 1;
        } else {
            let follower = if i + 1 < n {
                Some(input.get_char(i + 1))
            } else {
                None
            };
            match tokenize_special(c, follower) {
                Some((token, both)) => {
                    lexeme = Some(Lexeme::Token(token));
                    next = if both {
                        i + 2
                    } else {
                        i + 1
                    };
                },
                None => {
                    if is_whitespace(c) {
                        lexeme = None;
                        next = i + 1;
                    } else {
                        return Err(CoreError::IncorrectChar(c));
                    }
                },
            }
        }
        match lexeme {
            Some(l) => {
                proof {
                    let rest = lex(input@, next as int);
                    assert(lex(input@, start as int) == and_then_lexemes(seq![l@], rest));
                    assert(lexemes(found@.push(l)) =~= before + seq![l@]);
                    if rest is Ok {
                        assert((before + seq![l@]) + rest->Ok_0 =~= before + (seq![l@]
                            + rest->Ok_0));
                    }
                }
                found.push(l);
            },
            None => {},
        }
        i = next;
    }
    assert(lexemes(found@) + Seq::<Lexm>::empty() =~= lexemes(found@));
    Ok(found)
}

/// How many of the first `i` lexemes are numerals.
pub open spec fn numerals_before(found: Seq<Lexm>, i: int) -> nat
    decreases i,
{
    if i <= 0 || i > found.len() {
        0
    } else if found[i - 1] is Numeral {
        1 + numerals_before(found, i - 1)
    } else {
        numerals_before(found, i - 1)
    }
}

/// The texts of the numerals among the first `i` lexemes, in order.
pub open spec fn numeral_texts(found: Seq<Lexm>, i: int) -> Seq<Seq<char>>
    decreases i,
{
    if i <= 0 || i > found.len() {
        Seq::empty()
    } else if found[i - 1] is Numeral {
        numeral_texts(found, i - 1).push(found[i - 1]->Numeral_0)
    } else {
        numeral_texts(found, i - 1)
    }
}

/// The tokens that the lexemes stand for once the numerals have the given
/// values, the first numeral the first value and so on.
pub open spec fn valued(found: Seq<Lexm>, values: Seq<u64>) -> Seq<Tok> {
    Seq::new(
        found.len(),
        |i: int|
            match found[i] {
                Lexm::Token(t) => t,
                Lexm::Numeral(_) => Tok::Number(values[numerals_before(found, i) as int]),
            },
    )
}

/// The views of a sequence of texts.
pub open spec fn texts(s: Seq<String>) -> Seq<Seq<char>> {
    Seq::new(s.len(), |i: int| s[i]@)
}

/// The texts of the numerals among the lexemes, in order, for the host to
/// read.
pub fn numerals(found: &Vec<Lexeme>) -> (r: Vec<String>)
    ensures
        texts(r@) == numeral_texts(lexemes(found@), found@.len() as int),
        r@.len() == numerals_before(lexemes(found@), found@.len() as int),
{
    let mut out: Vec<String> = Vec::new();
    let mut i: usize = 0;
    while i < found.len()
        invariant
            i <= found.len(),
            texts(out@) == numeral_texts(lexemes(found@), i as int),
            out@.len() == numerals_before(lexemes(found@), i as int),
        decreases found.len() - i,
    {
        if let Lexeme::Numeral(text) = &found[i] {
            let ghost before = texts(out@);
            out.push(text.clone());
            assert(texts(out@) =~= before.push(text@));
        }
        i += 1;
    }
    out
}

/// Turns lexemes into tokens, giving the numerals the values that the host
/// read for them; `None` unless there is one value for each numeral.
pub fn tokenize_num(found: &Vec<Lexeme>, values: &Vec<u64>) -> (r: Option<Vec<Token>>)
    ensures
        r is Some <==> values@.len() == numerals_before(lexemes(found@), found@.len() as int),
        r matches Some(tokens) ==> models(tokens@) == valued(lexemes(found@), values@),
{
    let mut out: Vec<Token> = Vec::new();
    let mut used: usize = 0;
    let mut i: usize = 0;
    while i < found.len()
        invariant
            i <= found.len(),
            out@.len() == i,
            used == numerals_before(lexemes(found@), i as int),
            used <= i,
            used <= values.len(),
            forall|j: int| 0 <= j < i ==> out@[j]@ == valued(lexemes(found@), values@)[j],
        decreases found.len() - i,
    {
        match &found[i] {
            Lexeme::Token(t) => {
                out.push(clone_token(t));
            },
            Lexeme::Numeral(_) => {
                if used >= values.len() {
                    proof {
                        numerals_grow(lexemes(found@), i as int + 1, found@.len() as int);
                    }
                    return None;
                }
                out.push(Token::Number(values[used]));
                used += 1;
            },
        }
        i += 1;
    }
    if used != values.len() {
        return None;
    }
    assert(models(out@) =~= valued(lexemes(found@), values@));
    Some(out)
}

/// The count of numerals grows with the prefix.
pub proof fn numerals_grow(found: Seq<Lexm>, i: int, j: int)
    requires
        0 <= i <= j <= found.len(),
    ensures
        numerals_before(found, i) <= numerals_before(found, j),
    decreases j - i,
{
    if i < j {
        numerals_grow(found, i, j - 1);
    }
}

/// Whether no token is a group.
pub open spec fn flat(s: Seq<Tok>) -> bool {
    forall|i: int| 0 <= i < s.len() ==> !(#[trigger] s[i] is Paren)
}

/// Whether no lexeme is a group.
pub open spec fn plain(found: Seq<Lexm>) -> bool {
    forall|i: int|
        0 <= i < found.len() ==> !(#[trigger] found[i] matches Lexm::Token(Tok::Paren(_)))
}

/// The lexer yields no group: whatever values the numerals have, the tokens
/// of a lexed line are flat.
pub proof fn lexer_yields_no_group(s: Seq<char>, i: int)
    ensures
        lex(s, i) matches Ok(found) ==> plain(found) && forall|values: Seq<u64>|
            flat(#[trigger] valued(found, values)),
    decreases s.len() - i,
{
    if 0 <= i < s.len() {
        runs_end_inside(s, i + 1);
        let whole = i + 1 + digit_run(s, i + 1);
        if whole < s.len() {
            runs_end_inside(s, whole + 1);
        }
        let c = s[i];
        let next: int = if word_start(c) {
            i + 1 + word_run(s, i + 1)
        } else if digit(c) {
            if whole < s.len() && s[whole] == '.' {
                whole + 1 + digit_run(s, whole + 1)
            } else {
                whole
            }
        } else if c == '(' || c == ')' || c == ':' {
            i + 1
        } else if special(c) {
            if i + 1 < s.len() && symbol_pair(c, s[i + 1]) is Some {
                i + 2
            } else {
                i + 1
            }
        } else {
            i + 1
        };
        lexer_yields_no_group(s, next);
    }
    if let Ok(found) = lex(s, i) {
        assert(plain(found));
        assert forall|values: Seq<u64>| flat(#[trigger] valued(found, values)) by {
            assert forall|k: int| 0 <= k < found.len() implies !(#[trigger] valued(
                found,
                values,
            )[k] is Paren) by {
                assert(!(found[k] matches Lexm::Token(Tok::Paren(_))));
            }
        }
    }
}

} // verus!
