//! Statements, and the classification of a line's tokens into one.

use vstd::prelude::*;
use crate::calculator::{collapsed, fold, folded, post_process_paren};
use crate::error::{CoreError, Fault};
use crate::tokenizer::{
    clone_token, clone_tokens, models, models_push, paren_model, texts, Compare, Keyword,
    Operation, Tok, Token,
};

verus! {

broadcast use vstd::std_specs::vec::group_vec_axioms;

/// A statement.
#[derive(Debug)]
pub enum LineType {
    /// Nothing to do.
    Nothing,
    /// Print the values of these names.
    Out(Vec<String>),
    /// Store the value of the expression under the name, as the operation
    /// says.
    VarOperate(String, Operation, Vec<Token>),
    /// If the comparison holds between the two expressions, run the body.
    If(Vec<Token>, Compare, Vec<Token>, Vec<Vec<Token>>),
    /// While the comparison holds between the two expressions, run the
    /// body.
    While(Vec<Token>, Compare, Vec<Token>, Vec<Vec<Token>>),
}

/// The mathematical value of a statement.
pub enum Line {
    Nothing,
    Out(Seq<Seq<char>>),
    VarOperate(Seq<char>, Operation, Seq<Tok>),
    If(Seq<Tok>, Compare, Seq<Tok>, Seq<Seq<Tok>>),
    While(Seq<Tok>, Compare, Seq<Tok>, Seq<Seq<Tok>>),
}

/// The values of the lines of a body.
pub open spec fn bodies(s: Seq<Vec<Token>>) -> Seq<Seq<Tok>> {
    Seq::new(s.len(), |i: int| models(s[i]@))
}

impl View for LineType {
    type V = Line;

    open spec fn view(&self) -> Line {
        match self {
            LineType::Nothing => Line::Nothing,
            LineType::Out(names) => Line::Out(texts(names@)),
            LineType::VarOperate(name, o, e) => Line::VarOperate(name@, *o, models(e@)),
            LineType::If(a, c, b, body) => Line::If(models(a@), *c, models(b@), bodies(body@)),
            LineType::While(a, c, b, body) => Line::While(
                models(a@),
                *c,
                models(b@),
                bodies(body@),
            ),
        }
    }
}

/// Whether the tokens are a print: a name, followed by pairs of a colon and
/// a name and by nothing else.
pub open spec fn is_print(s: Seq<Tok>) -> bool {
    &&& s.len() % 2 == 1
    &&& forall|j: int| 0 <= j < s.len() && j % 2 == 0 ==> #[trigger] s[j] is Name
    &&& forall|j: int| 0 <= j < s.len() && j % 2 == 1 ==> #[trigger] s[j] is Colon
}

/// The names of a print, in order.
pub open spec fn print_names(s: Seq<Tok>) -> Seq<Seq<char>> {
    Seq::new(((s.len() + 1) / 2) as nat, |j: int| s[2 * j]->Name_0)
}

/// The first position from `i` on that holds a comparison, or the length
/// where none does.
pub open spec fn first_compare(s: Seq<Tok>, i: int) -> int
    decreases s.len() - i,
{
    if i < 0 || i >= s.len() {
        s.len() as int
    } else if s[i] is Compare {
        i
    } else {
        first_compare(s, i + 1)
    }
}

/// The first position from `i` on that holds a colon, or the length where
/// none does.
pub open spec fn first_colon(s: Seq<Tok>, i: int) -> int
    decreases s.len() - i,
{
    if i < 0 || i >= s.len() {
        s.len() as int
    } else if s[i] is Colon {
        i
    } else {
        first_colon(s, i + 1)
    }
}

/// A line of a body, unless it is empty.
pub open spec fn kept(line: Seq<Tok>) -> Seq<Seq<Tok>> {
    if line.len() == 0 {
        Seq::empty()
    } else {
        seq![line]
    }
}

/// The lines of a body: the tokens from `i` on, cut at each colon, without
/// the colons and without empty lines. `line` holds the tokens of the line
/// that `i` stands in.
pub open spec fn cut(s: Seq<Tok>, i: int, line: Seq<Tok>) -> Seq<Seq<Tok>>
    decreases s.len() - i,
{
    if i < 0 || i >= s.len() {
        kept(line)
    } else if s[i] is Colon {
        kept(line) + cut(s, i + 1, Seq::empty())
    } else {
        cut(s, i + 1, line.push(s[i]))
    }
}

/// The conditional or loop that folded tokens make: the comparison is the
/// first one behind the keyword, the colon the first one behind the
/// comparison.
pub open spec fn conditional(k: Keyword, t: Seq<Tok>) -> Result<Line, Fault> {
    let c = first_compare(t, 1);
    let colon = first_colon(t, c + 1);
    if c >= t.len() {
        Err(Fault::NoComparator)
    } else if colon >= t.len() {
        Err(Fault::NoConsequence)
    } else {
        let left = t.subrange(1, c);
        let right = t.subrange(c + 1, colon);
        let body = cut(t, colon + 1, Seq::empty());
        match k {
            Keyword::If => Ok(Line::If(left, t[c]->Compare_0, right, body)),
            Keyword::While => Ok(Line::While(left, t[c]->Compare_0, right, body)),
        }
    }
}

/// The statement that tokens make.
///
/// No tokens are nothing. A name starts a print, or else an assignment if
/// an assignment operator follows it. A keyword starts a conditional or a
/// loop, whose tokens are folded first. One group alone is what it holds.
/// Anything else is nothing.
pub open spec fn classified(s: Seq<Tok>) -> Result<Line, Fault>
    decreases s,
{
    if s.len() == 0 {
        Ok(Line::Nothing)
    } else {
        match s[0] {
            Tok::Name(name) => if is_print(s) {
                Ok(Line::Out(print_names(s)))
            } else if s.len() >= 2 && s[1] is Operation {
                Ok(Line::VarOperate(name, s[1]->Operation_0, s.subrange(2, s.len() as int)))
            } else {
                Ok(Line::Nothing)
            },
            Tok::Key(k) => match fold(s) {
                None => Err(Fault::Parenthesis),
                Some(f) => conditional(k, collapsed(f)),
            },
            Tok::Paren(inner) => if s.len() == 1 {
                classified(inner)
            } else {
                Ok(Line::Nothing)
            },
            _ => Ok(Line::Nothing),
        }
    }
}

/// The names of a print, if the tokens are one.
fn print_of(tokens: &Vec<Token>) -> (r: Option<Vec<String>>)
    ensures
        r is Some <==> is_print(models(tokens@)),
        r matches Some(names) ==> texts(names@) == print_names(models(tokens@)),
{
    let ghost s = models(tokens@);
    let n = tokens.len();
    if n % 2 != 1 {
        return None;
    }
    let mut names: Vec<String> = Vec::new();
    let mut i: usize = 0;
    while i < n
        invariant
            i <= n,
            n % 2 == 1,
            n == tokens.len(),
            s == models(tokens@),
            names@.len() == (i + 1) / 2,
            forall|j: int| 0 <= j < i && j % 2 == 0 ==> #[trigger] s[j] is Name,
            forall|j: int| 0 <= j < i && j % 2 == 1 ==> #[trigger] s[j] is Colon,
            forall|j: int| 0 <= j < names@.len() ==> names@[j]@ == s[2 * j]->Name_0,
        decreases n - i,
    {
        if i % 2 == 0 {
            match &tokens[i] {
                Token::Name(name) => {
                    names.push(name.clone());
                },
                _ => {
                    assert(!(s[i as int] is Name));
                    return None;
                },
            }
        } else {
            match &tokens[i] {
                Token::Colon => {},
                _ => {
                    assert(!(s[i as int] is Colon));
                    return None;
                },
            }
        }
        i += 1;
    }
    assert(texts(names@) =~= print_names(s));
    Some(names)
}

/// The first position from `from` on that holds a comparison.
fn find_compare(tokens: &Vec<Token>, from: usize) -> (r: usize)
    requires
        from <= tokens.len(),
    ensures
        r == first_compare(models(tokens@), from as int),
        from <= r <= tokens.len(),
        r < tokens.len() ==> models(tokens@)[r as int] is Compare,
{
    let mut i: usize = from;
    while i < tokens.len()
        invariant
            from <= i <= tokens.len(),
            first_compare(models(tokens@), from as int) == first_compare(models(tokens@), i as int),
        decreases tokens.len() - i,
    {
        if let Token::Compare(_) = &tokens[i] {
            return i;
        }
        i += 1;
    }
    i
}

/// The first position from `from` on that holds a colon.
fn find_colon(tokens: &Vec<Token>, from: usize) -> (r: usize)
    requires
        from <= tokens.len(),
    ensures
        r == first_colon(models(tokens@), from as int),
        from <= r <= tokens.len(),
{
    let mut i: usize = from;
    while i < tokens.len()
        invariant
            from <= i <= tokens.len(),
            first_colon(models(tokens@), from as int) == first_colon(models(tokens@), i as int),
        decreases tokens.len() - i,
    {
        if let Token::Colon = &tokens[i] {
            return i;
        }
        i += 1;
    }
    i
}

/// Cuts the tokens from `from` on into the lines of a body.
fn split_lines(tokens: &Vec<Token>, from: usize) -> (r: Vec<Vec<Token>>)
    requires
        from <= tokens.len(),
    ensures
        bodies(r@) == cut(models(tokens@), from as int, Seq::empty()),
{
    let ghost s = models(tokens@);
    let mut lines: Vec<Vec<Token>> = Vec::new();
    let mut line: Vec<Token> = Vec::new();
    let mut i: usize = from;
    assert(models(line@) =~= Seq::<Tok>::empty());
    let ghost all = cut(s, from as int, Seq::empty());
    assert(bodies(lines@) + all =~= all);
    while i < tokens.len()
        invariant
            from <= i <= tokens.len(),
            s == models(tokens@),
            cut(s, from as int, Seq::empty()) == bodies(lines@) + cut(s, i as int, models(line@)),
        decreases tokens.len() - i,
    {
        let ghost before = bodies(lines@);
        let ghost current = models(line@);
        match &tokens[i] {
            Token::Colon => {
                if line.len() > 0 {
                    lines.push(line);
                    proof {
                        assert(bodies(lines@) =~= before + seq![current]);
                        assert(before + (seq![current] + cut(s, i + 1, Seq::empty())) =~= (before
                            + seq![current]) + cut(s, i + 1, Seq::empty()));
                    }
                } else {
                    assert(before + (Seq::<Seq<Tok>>::empty() + cut(s, i + 1, Seq::empty()))
                        =~= before + cut(s, i + 1, Seq::empty()));
                }
                line = Vec::new();
                assert(models(line@) =~= Seq::<Tok>::empty());
            },
            other => {
                let t = clone_token(other);
                proof {
                    models_push(line@, t);
                }
                line.push(t);
            },
        }
        i += 1;
    }
    let ghost before = bodies(lines@);
    let ghost current = models(line@);
    if line.len() > 0 {
        lines.push(line);
        assert(bodies(lines@) =~= before + seq![current]);
    } else {
        assert(before + Seq::<Seq<Tok>>::empty() =~= before);
    }
    lines
}

/// The conditional or loop of folded tokens.
fn classify_conditional(k: Keyword, tokens: &Vec<Token>) -> (r: Result<LineType, CoreError>)
    requires
        tokens.len() >= 1,
    ensures
        match r {
            Ok(line) => conditional(k, models(tokens@)) == Ok::<Line, Fault>(line@),
            Err(e) => conditional(k, models(tokens@)) == Err::<Line, Fault>(e@),
        },
{
    let n = tokens.len();
    let c = find_compare(tokens, 1);
    if c >= n {
        return Err(CoreError::NoComparator);
    }
    let colon = find_colon(tokens, c + 1);
    if colon >= n {
        return Err(CoreError::NoConsequence);
    }
    let compare = match &tokens[c] {
        Token::Compare(compare) => *compare,
        _ => Compare::Equal,
    };
    let left = clone_tokens(tokens, 1, c);
    let right = clone_tokens(tokens, c + 1, colon);
    let body = split_lines(tokens, colon + 1);
    match k {
        Keyword::If => Ok(LineType::If(left, compare, right, body)),
        Keyword::While => Ok(LineType::While(left, compare, right, body)),
    }
}

/// The statement of tokens.
fn classify(tokens: &Vec<Token>) -> (r: Result<LineType, CoreError>)
    ensures
        match r {
            Ok(line) => classified(models(tokens@)) == Ok::<Line, Fault>(line@),
            Err(e) => classified(models(tokens@)) == Err::<Line, Fault>(e@),
        },
    decreases tokens,
{
    let ghost s = models(tokens@);
    let n = tokens.len();
    if n == 0 {
        return Ok(LineType::Nothing);
    }
    match &tokens[0] {
        Token::Name(name) => {
            match print_of(tokens) {
                Some(names) => Ok(LineType::Out(names)),
                None => {
                    if n >= 2 {
                        if let Token::Operation(o) = &tokens[1] {
                            return Ok(
                                LineType::VarOperate(name.clone(), *o, clone_tokens(tokens, 2, n)),
                            );
                        }
                    }
                    Ok(LineType::Nothing)
                },
            }
        },
        Token::Key(k) => {
            let copy = clone_tokens(tokens, 0, n);
            assert(models(copy@) =~= s);
            match post_process_paren(copy) {
                Err(e) => Err(e),
                Ok(ready) => {
                    proof {
                        assert(fold(s)->0.len() >= 1) by {
                            folding_keeps_the_first(s);
                        }
                    }
                    classify_conditional(*k, &ready)
                },
            }
        },
        Token::Paren(inner) => {
            if n == 1 {
                proof {
                    paren_model(*inner);
                    assert(decreases_to!(*tokens => tokens@[0]));
                }
                classify(inner)
            } else {
                Ok(LineType::Nothing)
            }
        },
        _ => Ok(LineType::Nothing),
    }
}

/// Folding keeps a first token that is no parenthesis.
proof fn folding_keeps_the_first(s: Seq<Tok>)
    requires
        s.len() >= 1,
        !(s[0] is ParenOpen),
        !(s[0] is ParenClose),
    ensures
        fold(s) matches Some(out) ==> out.len() >= 1,
{
    folded_keeps_the_bottom(s, 1, Seq::empty(), seq![s[0]]);
    assert(Seq::<Tok>::empty().push(s[0]) =~= seq![s[0]]);
}

/// Folding never shortens the outermost unfinished group.
proof fn folded_keeps_the_bottom(s: Seq<Tok>, i: int, open: Seq<Seq<Tok>>, current: Seq<Tok>)
    requires
        0 <= i,
        if open.len() == 0 {
            current.len() >= 1
        } else {
            open[0].len() >= 1
        },
    ensures
        folded(s, i, open, current) matches Some(out) ==> out.len() >= 1,
    decreases s.len() - i,
{
    if i >= s.len() {
    } else if s[i] is ParenOpen {
        folded_keeps_the_bottom(s, i + 1, open.push(current), Seq::empty());
    } else if s[i] is ParenClose {
        if open.len() > 0 {
            folded_keeps_the_bottom(
                s,
                i + 1,
                open.drop_last(),
                open.last().push(Tok::Paren(current)),
            );
        }
    } else {
        folded_keeps_the_bottom(s, i + 1, open, current.push(s[i]));
    }
}

/// Classifies the tokens of a line into a statement.
///
/// Fails where a conditional or a loop holds a parenthesis without a
/// partner, no comparison, or no colon behind its comparison, and nowhere
/// else.
pub fn construct_line_type(tokens: Vec<Token>) -> (r: Result<LineType, CoreError>)
    ensures
        match r {
            Ok(line) => classified(models(tokens@)) == Ok::<Line, Fault>(line@),
            Err(e) => classified(models(tokens@)) == Err::<Line, Fault>(e@),
        },
{
    classify(&tokens)
}

} // verus!
