//! From the tokens of an expression to its tree.

use vstd::prelude::*;
use crate::error::{CoreError, Fault};
use crate::evaluation::{value, Arithmetic, Evaluation, Stage};
use crate::number;
use crate::tokenizer::{
    clone_token, flat, lex, lexer_yields_no_group, models, models_push, paren_model, valued,
    Operator, Tok, Token,
};

verus! {

broadcast use vstd::std_specs::vec::group_vec_axioms;

/// The tokens after which a minus sign subtracts.
pub open spec fn value_like(t: Tok) -> bool {
    t is Name || t is Number || t is ParenClose
}

/// Whether the tokens start with a sign and its number: a minus that does
/// not stand behind a value-like token, in front of a number.
pub open spec fn merges(s: Seq<Tok>, after_value: bool) -> bool {
    s.len() >= 2 && s[0] == Tok::Operator(Operator::Minus) && !after_value && s[1] is Number
}

/// The tokens with each sign merged into its number.
///
/// A minus that stands first, or behind a token that is not value-like,
/// and in front of a number becomes that number negated. `after_value`
/// says whether the token in front of `s` is value-like.
pub open spec fn signed(s: Seq<Tok>, after_value: bool) -> Seq<Tok>
    decreases s.len(),
{
    if s.len() == 0 {
        s
    } else if merges(s, after_value) {
        seq![Tok::Number(number::negated(s[1]->Number_0))] + signed(s.skip(2), true)
    } else {
        seq![s[0]] + signed(s.skip(1), value_like(s[0]))
    }
}

/// The tokens with each matched pair of parentheses, and what stands
/// between them, made one group; `None` where a parenthesis has no partner.
///
/// `open` holds the unfinished groups around position `i`, outermost first,
/// and `current` the tokens of the innermost one so far.
pub open spec fn folded(s: Seq<Tok>, i: int, open: Seq<Seq<Tok>>, current: Seq<Tok>) -> Option<
    Seq<Tok>,
>
    decreases s.len() - i,
{
    if i < 0 || i >= s.len() {
        if open.len() == 0 {
            Some(current)
        } else {
            None
        }
    } else if s[i] is ParenOpen {
        folded(s, i + 1, open.push(current), Seq::empty())
    } else if s[i] is ParenClose {
        if open.len() == 0 {
            None
        } else {
            folded(s, i + 1, open.drop_last(), open.last().push(Tok::Paren(current)))
        }
    } else {
        folded(s, i + 1, open, current.push(s[i]))
    }
}

/// The folding of a whole sequence.
pub open spec fn fold(s: Seq<Tok>) -> Option<Seq<Tok>> {
    folded(s, 0, Seq::empty(), Seq::empty())
}

/// The tokens that stand for a value.
pub open spec fn operand(t: Tok) -> bool {
    t is Name || t is Number || t is Paren
}

/// Whether two neighbours are multiplied without a sign between them: both
/// are operands.
pub open spec fn adjoining(left: Tok, right: Tok) -> bool {
    operand(left) && operand(right)
}

/// The tokens with a multiplication sign between each two neighbours that
/// adjoin.
pub open spec fn multiplied(s: Seq<Tok>) -> Seq<Tok>
    decreases s.len(),
{
    if s.len() <= 1 {
        s
    } else if adjoining(s[0], s[1]) {
        seq![s[0], Tok::Operator(Operator::Multiply)] + multiplied(s.skip(1))
    } else {
        seq![s[0]] + multiplied(s.skip(1))
    }
}

/// A token without the groups of one token around it.
pub open spec fn unwrapped(t: Tok) -> Tok
    decreases t,
{
    match t {
        Tok::Paren(inner) => if inner.len() == 1 {
            unwrapped(inner[0])
        } else {
            t
        },
        _ => t,
    }
}

/// The tokens, each unwrapped.
pub open spec fn collapsed(s: Seq<Tok>) -> Seq<Tok> {
    Seq::new(s.len(), |i: int| unwrapped(s[i]))
}

/// The tokens of an expression made ready for the tree: signs merged,
/// parentheses folded, multiplication signs supplied, and groups of one
/// token unwrapped, in this order.
pub open spec fn post_processed(s: Seq<Tok>) -> Option<Seq<Tok>> {
    match fold(signed(s, false)) {
        Some(f) => Some(collapsed(multiplied(f))),
        None => None,
    }
}

/// Whether a token is no parenthesis and holds none at any depth.
pub open spec fn bare(t: Tok) -> bool
    decreases t,
{
    match t {
        Tok::ParenOpen | Tok::ParenClose => false,
        Tok::Paren(inner) => forall|i: int| 0 <= i < inner.len() ==> bare(#[trigger] inner[i]),
        _ => true,
    }
}

/// Whether all tokens are bare.
pub open spec fn all_bare(s: Seq<Tok>) -> bool {
    forall|i: int| 0 <= i < s.len() ==> bare(#[trigger] s[i])
}

/// Whether the groups among the tokens are bare: true of what the lexer
/// yields, which holds no group.
pub open spec fn groups_bare(s: Seq<Tok>) -> bool {
    forall|i: int| 0 <= i < s.len() && #[trigger] s[i] is Paren ==> bare(s[i])
}

/// Whether a token is value-like.
fn is_valid_preceding_token(token: &Token) -> (r: bool)
    ensures
        r == value_like(token@),
{
    match token {
        Token::Name(_) | Token::Number(_) | Token::ParenClose => true,
        _ => false,
    }
}

/// Merges each sign into its number.
fn merge_signs(tokens: &Vec<Token>) -> (r: Vec<Token>)
    ensures
        models(r@) == signed(models(tokens@), false),
{
    let ghost s = models(tokens@);
    let mut out: Vec<Token> = Vec::new();
    let mut after_value = false;
    let mut i: usize = 0;
    assert(s.skip(0) =~= s);
    assert(models(out@) + signed(s, false) =~= signed(s, false));
    while i < tokens.len()
        invariant
            i <= tokens.len(),
            s == models(tokens@),
            signed(s, false) == models(out@) + signed(s.skip(i as int), after_value),
        decreases tokens.len() - i,
    {
        let ghost rest = s.skip(i as int);
        let ghost before = models(out@);
        let mut merged: Option<u64> = None;
        if !after_value && i + 1 < tokens.len() {
            if let Token::Operator(Operator::Minus) = &tokens[i] {
                if let Token::Number(n) = &tokens[i + 1] {
                    merged = Some(number::negate(*n));
                }
            }
        }
        match merged {
            Some(n) => {
                out.push(Token::Number(n));
                proof {
                    assert(rest.skip(2) =~= s.skip(i + 2));
                    assert(models(out@) =~= before + seq![Tok::Number(n)]);
                    assert(before + (seq![Tok::Number(n)] + signed(rest.skip(2), true)) =~= (before
                        + seq![Tok::Number(n)]) + signed(rest.skip(2), true));
                }
                after_value = true;
                i += 2;
            },
            None => {
                let t = clone_token(&tokens[i]);
                proof {
                    assert(rest.skip(1) =~= s.skip(i + 1));
                    assert(models(out@.push(t)) =~= before + seq![t@]);
                    assert(before + (seq![t@] + signed(rest.skip(1), value_like(t@))) =~= (before
                        + seq![t@]) + signed(rest.skip(1), value_like(t@)));
                }
                after_value = is_valid_preceding_token(&t);
                out.push(t);
                i += 1;
            },
        }
    }
    assert(models(out@) + Seq::<Tok>::empty() =~= models(out@));
    out
}

/// The values of a stack of unfinished groups.
pub open spec fn stack_models(stack: Seq<Vec<Token>>) -> Seq<Seq<Tok>> {
    Seq::new(stack.len(), |i: int| models(stack[i]@))
}

/// Folds each matched pair of parentheses into a group.
fn fold_parens(tokens: &Vec<Token>) -> (r: Option<Vec<Token>>)
    ensures
        match r {
            Some(out) => fold(models(tokens@)) == Some(models(out@)),
            None => fold(models(tokens@)) is None,
        },
{
    let ghost s = models(tokens@);
    let mut open: Vec<Vec<Token>> = Vec::new();
    let mut current: Vec<Token> = Vec::new();
    let mut i: usize = 0;
    assert(stack_models(open@) =~= Seq::<Seq<Tok>>::empty());
    assert(models(current@) =~= Seq::<Tok>::empty());
    while i < tokens.len()
        invariant
            i <= tokens.len(),
            s == models(tokens@),
            fold(s) == folded(s, i as int, stack_models(open@), models(current@)),
        decreases tokens.len() - i,
    {
        let ghost outer = stack_models(open@);
        let ghost inner = models(current@);
        match &tokens[i] {
            Token::ParenOpen => {
                open.push(current);
                current = Vec::new();
                proof {
                    assert(stack_models(open@) =~= outer.push(inner));
                    assert(models(current@) =~= Seq::<Tok>::empty());
                }
            },
            Token::ParenClose => {
                match open.pop() {
                    None => {
                        return None;
                    },
                    Some(mut around) => {
                        proof {
                            paren_model(current);
                            assert(stack_models(open@) =~= outer.drop_last());
                            assert(models(around@) == outer.last());
                        }
                        let group = Token::Paren(current);
                        proof {
                            models_push(around@, group);
                        }
                        around.push(group);
                        current = around;
                    },
                }
            },
            other => {
                let t = clone_token(other);
                proof {
                    models_push(current@, t);
                }
                current.push(t);
            },
        }
        i += 1;
    }
    if open.len() == 0 {
        Some(current)
    } else {
        None
    }
}

/// Supplies the multiplication signs that were left out.
fn insert_products(tokens: &Vec<Token>) -> (r: Vec<Token>)
    ensures
        models(r@) == multiplied(models(tokens@)),
{
    let ghost s = models(tokens@);
    let mut out: Vec<Token> = Vec::new();
    let mut i: usize = 0;
    assert(s.skip(0) =~= s);
    assert(models(out@) + multiplied(s) =~= multiplied(s));
    while i < tokens.len()
        invariant
            i <= tokens.len(),
            s == models(tokens@),
            multiplied(s) == models(out@) + multiplied(s.skip(i as int)),
        decreases tokens.len() - i,
    {
        let ghost rest = s.skip(i as int);
        let ghost before = models(out@);
        let t = clone_token(&tokens[i]);
        let sign = i + 1 < tokens.len() && adjoin(&tokens[i], &tokens[i + 1]);
        proof {
            assert(rest.skip(1) =~= s.skip(i + 1));
            models_push(out@, t);
            if rest.len() <= 1 {
                assert(multiplied(rest.skip(1)) =~= Seq::<Tok>::empty());
                assert(before.push(t@) + multiplied(rest.skip(1)) =~= before + rest);
            } else if sign {
                assert(before + (seq![t@, Tok::Operator(Operator::Multiply)] + multiplied(
                    rest.skip(1),
                )) =~= before.push(t@).push(Tok::Operator(Operator::Multiply)) + multiplied(
                    rest.skip(1),
                ));
            } else {
                assert(before + (seq![t@] + multiplied(rest.skip(1))) =~= before.push(t@)
                    + multiplied(rest.skip(1)));
            }
        }
        out.push(t);
        if sign {
            proof {
                models_push(out@, Token::Operator(Operator::Multiply));
            }
            out.push(Token::Operator(Operator::Multiply));
        }
        i += 1;
    }
    assert(models(out@) + Seq::<Tok>::empty() =~= models(out@));
    out
}

/// Whether a token stands for a value.
fn is_operand(token: &Token) -> (r: bool)
    ensures
        r == operand(token@),
{
    match token {
        Token::Name(_) | Token::Number(_) | Token::Paren(_) => true,
        _ => false,
    }
}

/// Whether two neighbours are multiplied without a sign between them.
fn adjoin(left: &Token, right: &Token) -> (r: bool)
    ensures
        r == adjoining(left@, right@),
{
    is_operand(left) && is_operand(right)
}

/// Takes a token out of the groups of one token around it.
pub fn remove_paren(token: Token) -> (r: Token)
    ensures
        r@ == unwrapped(token@),
    decreases token,
{
    match token {
        Token::Paren(mut inner) => {
            proof {
                paren_model(inner);
            }
            if inner.len() == 1 {
                let ghost whole = inner;
                let only = inner.pop();
                match only {
                    Some(t) => {
                        assert(t == whole@[0]);
                        assert(decreases_to!(whole => whole@[0]));
                        remove_paren(t)
                    },
                    None => Token::Paren(inner),
                }
            } else {
                Token::Paren(inner)
            }
        },
        other => other,
    }
}

/// Unwraps each token.
fn collapse(tokens: Vec<Token>) -> (r: Vec<Token>)
    ensures
        models(r@) == collapsed(models(tokens@)),
{
    let mut rest = tokens;
    let mut back: Vec<Token> = Vec::new();
    let ghost s = models(tokens@);
    while rest.len() > 0
        invariant
            rest@.len() + back@.len() == s.len(),
            models(rest@) == s.subrange(0, rest@.len() as int),
            forall|j: int|
                0 <= j < back@.len() ==> back@[j]@ == unwrapped(s[s.len() - 1 - j]),
        decreases rest.len(),
    {
        let ghost before = rest@;
        let last = rest.pop();
        match last {
            Some(t) => {
                assert(models(rest@) =~= s.subrange(0, rest@.len() as int));
                assert(t@ == models(before)[before.len() - 1]);
                back.push(remove_paren(t));
            },
            None => {},
        }
    }
    let mut out: Vec<Token> = Vec::new();
    while back.len() > 0
        invariant
            out@.len() + back@.len() == s.len(),
            forall|j: int|
                0 <= j < back@.len() ==> back@[j]@ == unwrapped(s[s.len() - 1 - j]),
            forall|j: int| 0 <= j < out@.len() ==> out@[j]@ == unwrapped(s[j]),
        decreases back.len(),
    {
        let last = back.pop();
        match last {
            Some(t) => {
                out.push(t);
            },
            None => {},
        }
    }
    assert(models(out@) =~= collapsed(s));
    out
}

/// Makes the tokens of an expression ready for the tree: merges signs into
/// numbers, folds parentheses into groups, supplies the multiplication
/// signs that were left out, and unwraps the groups of one token.
///
/// Fails exactly where a parenthesis has no partner. What comes out holds
/// no parenthesis at any depth, provided the groups that went in held none.
pub fn post_process_operation(tokens: Vec<Token>) -> (r: Result<Vec<Token>, CoreError>)
    ensures
        match r {
            Ok(out) => post_processed(models(tokens@)) == Some(models(out@)),
            Err(e) => post_processed(models(tokens@)) is None && e@ == Fault::Parenthesis,
        },
        r matches Ok(out) ==> (groups_bare(models(tokens@)) ==> all_bare(models(out@))),
{
    let merged = merge_signs(&tokens);
    match fold_parens(&merged) {
        None => Err(CoreError::Parenthesis),
        Some(grouped) => {
            let out = collapse(insert_products(&grouped));
            proof {
                if groups_bare(models(tokens@)) {
                    post_processing_leaves_no_parenthesis(models(tokens@));
                }
            }
            Ok(out)
        },
    }
}

/// Folds parentheses into groups and unwraps the groups of one token.
///
/// Fails exactly where a parenthesis has no partner. What comes out holds
/// no parenthesis at any depth, provided the groups that went in held none.
pub fn post_process_paren(tokens: Vec<Token>) -> (r: Result<Vec<Token>, CoreError>)
    ensures
        match r {
            Ok(out) => fold(models(tokens@)) is Some && models(out@) == collapsed(
                fold(models(tokens@))->0,
            ),
            Err(e) => fold(models(tokens@)) is None && e@ == Fault::Parenthesis,
        },
        r matches Ok(out) ==> (groups_bare(models(tokens@)) ==> all_bare(models(out@))),
{
    match fold_parens(&tokens) {
        None => Err(CoreError::Parenthesis),
        Some(grouped) => {
            let out = collapse(grouped);
            proof {
                if groups_bare(models(tokens@)) {
                    folding_leaves_no_parenthesis(models(tokens@));
                    collapsing_keeps_bare(fold(models(tokens@))->0);
                }
            }
            Ok(out)
        },
    }
}

/// Merging signs keeps the groups bare.
pub proof fn signing_keeps_groups_bare(s: Seq<Tok>, after_value: bool)
    requires
        groups_bare(s),
    ensures
        groups_bare(signed(s, after_value)),
        signed(s, after_value).len() <= s.len(),
    decreases s.len(),
{
    if s.len() == 0 {
    } else if merges(s, after_value) {
        let rest = s.skip(2);
        assert forall|i: int| 0 <= i < rest.len() && #[trigger] rest[i] is Paren implies bare(
            rest[i],
        ) by {
            assert(rest[i] == s[i + 2]);
        }
        signing_keeps_groups_bare(rest, true);
    } else {
        let rest = s.skip(1);
        assert forall|i: int| 0 <= i < rest.len() && #[trigger] rest[i] is Paren implies bare(
            rest[i],
        ) by {
            assert(rest[i] == s[i + 1]);
        }
        signing_keeps_groups_bare(rest, value_like(s[0]));
    }
}

/// Whether all unfinished groups hold bare tokens only.
pub open spec fn stack_bare(open: Seq<Seq<Tok>>) -> bool {
    forall|k: int| 0 <= k < open.len() ==> all_bare(#[trigger] open[k])
}

/// Folding from a state of bare tokens yields bare tokens.
pub proof fn folded_is_bare(s: Seq<Tok>, i: int, open: Seq<Seq<Tok>>, current: Seq<Tok>)
    requires
        groups_bare(s),
        stack_bare(open),
        all_bare(current),
    ensures
        folded(s, i, open, current) matches Some(out) ==> all_bare(out),
    decreases s.len() - i,
{
    if i < 0 || i >= s.len() {
    } else if s[i] is ParenOpen {
        let next = open.push(current);
        assert forall|k: int| 0 <= k < next.len() implies all_bare(#[trigger] next[k]) by {
            if k < open.len() {
                assert(next[k] == open[k]);
            }
        }
        folded_is_bare(s, i + 1, next, Seq::empty());
    } else if s[i] is ParenClose {
        if open.len() > 0 {
            let group = Tok::Paren(current);
            assert(bare(group));
            let around = open.last().push(group);
            assert forall|k: int| 0 <= k < around.len() implies bare(#[trigger] around[k]) by {
                if k < open.last().len() {
                    assert(around[k] == open.last()[k]);
                }
            }
            let next = open.drop_last();
            assert forall|k: int| 0 <= k < next.len() implies all_bare(#[trigger] next[k]) by {
                assert(next[k] == open[k]);
            }
            folded_is_bare(s, i + 1, next, around);
        }
    } else {
        let more = current.push(s[i]);
        assert forall|k: int| 0 <= k < more.len() implies bare(#[trigger] more[k]) by {
            if k < current.len() {
                assert(more[k] == current[k]);
            } else {
                assert(more[k] == s[i]);
            }
        }
        folded_is_bare(s, i + 1, open, more);
    }
}

/// Folding leaves no parenthesis behind, provided the groups that went in
/// held none.
pub proof fn folding_leaves_no_parenthesis(s: Seq<Tok>)
    requires
        groups_bare(s),
    ensures
        fold(s) matches Some(out) ==> all_bare(out),
{
    folded_is_bare(s, 0, Seq::empty(), Seq::empty());
}

/// Supplying multiplication signs keeps the tokens bare.
pub proof fn multiplying_keeps_bare(s: Seq<Tok>)
    requires
        all_bare(s),
    ensures
        all_bare(multiplied(s)),
    decreases s.len(),
{
    if s.len() > 1 {
        let rest = s.skip(1);
        assert forall|i: int| 0 <= i < rest.len() implies bare(#[trigger] rest[i]) by {
            assert(rest[i] == s[i + 1]);
        }
        multiplying_keeps_bare(rest);
        assert(bare(s[0]));
    }
}

/// Unwrapping a bare token gives a bare token.
pub proof fn unwrapping_keeps_bare(t: Tok)
    requires
        bare(t),
    ensures
        bare(unwrapped(t)),
    decreases t,
{
    if let Tok::Paren(inner) = t {
        if inner.len() == 1 {
            assert(bare(inner[0]));
            unwrapping_keeps_bare(inner[0]);
        }
    }
}

/// Unwrapping bare tokens gives bare tokens.
pub proof fn collapsing_keeps_bare(s: Seq<Tok>)
    requires
        all_bare(s),
    ensures
        all_bare(collapsed(s)),
{
    assert forall|i: int| 0 <= i < collapsed(s).len() implies bare(#[trigger] collapsed(s)[i]) by {
        assert(bare(s[i]));
        unwrapping_keeps_bare(s[i]);
    }
}

/// Post-processing leaves no parenthesis behind: whenever it succeeds on
/// tokens whose groups hold none, as those of the lexer do, no token of the
/// result is a parenthesis or holds one at any depth.
pub proof fn post_processing_leaves_no_parenthesis(s: Seq<Tok>)
    requires
        groups_bare(s),
    ensures
        post_processed(s) matches Some(out) ==> all_bare(out),
{
    signing_keeps_groups_bare(s, false);
    folding_leaves_no_parenthesis(signed(s, false));
    if let Some(f) = fold(signed(s, false)) {
        multiplying_keeps_bare(f);
        collapsing_keeps_bare(multiplied(f));
    }
}

/// An operator between two branches.
#[derive(Debug)]
pub struct Expression {
    pub a: Box<Possible>,
    pub o: Operator,
    pub b: Box<Possible>,
}

/// A node of the expression tree: an operation, or a leaf that holds one
/// token.
#[derive(Debug)]
pub enum Possible {
    PossExpression(Box<Expression>),
    PossToken(Token),
}

/// The mathematical value of an expression tree.
pub enum Tree {
    Leaf(Tok),
    Node(Box<Tree>, Operator, Box<Tree>),
}

/// The value of a node.
pub open spec fn tree_of(p: Possible) -> Tree
    decreases p,
{
    match p {
        Possible::PossExpression(e) => Tree::Node(
            Box::new(tree_of(*e.a)),
            e.o,
            Box::new(tree_of(*e.b)),
        ),
        Possible::PossToken(t) => Tree::Leaf(t@),
    }
}

impl View for Possible {
    type V = Tree;

    open spec fn view(&self) -> Tree {
        tree_of(*self)
    }
}

impl View for Expression {
    type V = Tree;

    open spec fn view(&self) -> Tree {
        Tree::Node(Box::new(tree_of(*self.a)), self.o, Box::new(tree_of(*self.b)))
    }
}

impl Expression {
    /// An operation from its two branches and its operator.
    pub fn new(a: Possible, o: Operator, b: Possible) -> (r: Expression)
        ensures
            r@ == Tree::Node(Box::new(a@), o, Box::new(b@)),
    {
        Expression { a: Box::new(a), o, b: Box::new(b) }
    }
}

impl Possible {
    /// The node of an operation.
    pub fn expression(exp: Expression) -> (r: Possible)
        ensures
            r@ == exp@,
    {
        Possible::PossExpression(Box::new(exp))
    }

    /// The leaf of a token.
    pub fn token(tok: Token) -> (r: Possible)
        ensures
            r@ == Tree::Leaf(tok@),
    {
        Possible::PossToken(tok)
    }
}

/// The rank of the operator at a position, if an operator stands there.
pub open spec fn rank_at(s: Seq<Tok>, j: int) -> int {
    s[j]->Operator_0.rank()
}

/// Whether position `k` is where the tokens from `from` up to `to` split
/// into two branches: an operator strictly inside, of the lowest rank among
/// the operators strictly inside, and the last of that rank.
pub open spec fn is_split(s: Seq<Tok>, from: int, to: int, k: int) -> bool {
    &&& from < k < to - 1
    &&& s[k] is Operator
    &&& forall|j: int|
        from < j < to - 1 && #[trigger] s[j] is Operator ==> rank_at(s, j) >= rank_at(s, k)
    &&& forall|j: int|
        k < j < to - 1 && #[trigger] s[j] is Operator ==> rank_at(s, j) > rank_at(s, k)
}

/// Whether the tokens from `from` up to `to` split anywhere.
pub open spec fn has_split(s: Seq<Tok>, from: int, to: int) -> bool {
    exists|k: int| is_split(s, from, to, k)
}

/// Where the tokens from `from` up to `to` split.
pub open spec fn split_point(s: Seq<Tok>, from: int, to: int) -> int {
    choose|k: int| is_split(s, from, to, k)
}

/// The tree of two branches under an operator, or the failure of the left
/// branch, or else that of the right.
pub open spec fn joined(
    left: Result<Tree, Fault>,
    o: Operator,
    right: Result<Tree, Fault>,
) -> Result<Tree, Fault> {
    match left {
        Err(e) => Err(e),
        Ok(a) => match right {
            Err(e) => Err(e),
            Ok(b) => Ok(Tree::Node(Box::new(a), o, Box::new(b))),
        },
    }
}

/// The tree of the tokens of `s` from `from` up to `to`.
///
/// One token is a leaf. More split at their split point into a left and a
/// right branch; a branch that is one group is the tree of what the group
/// holds. No tokens, or tokens that do not split, are malformed.
pub open spec fn composed(s: Seq<Tok>, from: int, to: int) -> Result<Tree, Fault>
    decreases s, to - from,
{
    if from < 0 || to > s.len() || to - from <= 0 {
        Err(Fault::Malformed)
    } else if to - from == 1 {
        Ok(Tree::Leaf(s[from]))
    } else if !has_split(s, from, to) {
        Err(Fault::Malformed)
    } else {
        let k = split_point(s, from, to);
        let left = if k - from == 1 && s[from] is Paren {
            composed(s[from]->Paren_0, 0, s[from]->Paren_0.len() as int)
        } else {
            composed(s, from, k)
        };
        let right = if to - (k + 1) == 1 && s[k + 1] is Paren {
            composed(s[k + 1]->Paren_0, 0, s[k + 1]->Paren_0.len() as int)
        } else {
            composed(s, k + 1, to)
        };
        joined(left, s[k]->Operator_0, right)
    }
}

/// The tree of a whole sequence of tokens.
pub open spec fn tree(s: Seq<Tok>) -> Result<Tree, Fault> {
    composed(s, 0, s.len() as int)
}

/// Finds where the tokens from `from` up to `to` split.
fn find_split(tokens: &Vec<Token>, from: usize, to: usize) -> (r: Option<(usize, Operator)>)
    requires
        from <= to <= tokens.len(),
    ensures
        match r {
            Some((k, o)) => is_split(models(tokens@), from as int, to as int, k as int)
                && tokens@[k as int]@ == Tok::Operator(o),
            None => !has_split(models(tokens@), from as int, to as int),
        },
{
    let ghost s = models(tokens@);
    let mut best: Option<(usize, Operator)> = None;
    let mut best_op = Operator::Absent;
    if to - from < 3 {
        return None;
    }
    let mut i: usize = from + 1;
    while i < to - 1
        invariant
            from < i <= to - 1,
            to <= tokens.len(),
            s == models(tokens@),
            best is None ==> best_op == Operator::Absent && forall|j: int|
                from < j < i ==> !(#[trigger] s[j] is Operator),
            best matches Some((k, o)) ==> {
                &&& from < k < i
                &&& o == best_op
                &&& s[k as int] == Tok::Operator(o)
                &&& forall|j: int|
                    from < j < i && #[trigger] s[j] is Operator ==> rank_at(s, j) >= o.rank()
                &&& forall|j: int|
                    k < j < i && #[trigger] s[j] is Operator ==> rank_at(s, j) > o.rank()
            },
        decreases to - i,
    {
        if let Token::Operator(o) = &tokens[i] {
            if best_op.over(*o) {
                best = Some((i, *o));
                best_op = *o;
            }
        }
        i += 1;
    }
    best
}

/// Builds the tree of the tokens from `from` up to `to`.
fn compose(tokens: &Vec<Token>, from: usize, to: usize) -> (r: Result<Possible, CoreError>)
    requires
        from <= to <= tokens.len(),
    ensures
        match r {
            Ok(p) => composed(models(tokens@), from as int, to as int) == Ok::<Tree, Fault>(p@),
            Err(e) => composed(models(tokens@), from as int, to as int) == Err::<Tree, Fault>(e@),
        },
    decreases tokens, to - from, 0int,
{
    let ghost s = models(tokens@);
    if to - from == 0 {
        return Err(CoreError::Malformed);
    }
    if to - from == 1 {
        return Ok(Possible::token(clone_token(&tokens[from])));
    }
    match find_split(tokens, from, to) {
        None => Err(CoreError::Malformed),
        Some((k, o)) => {
            assert(split_point(s, from as int, to as int) == k);
            let left = compose_branch(tokens, from, k);
            let left = match left {
                Err(e) => {
                    return Err(e);
                },
                Ok(a) => a,
            };
            let right = compose_branch(tokens, k + 1, to);
            match right {
                Err(e) => Err(e),
                Ok(b) => Ok(Possible::expression(Expression::new(left, o, b))),
            }
        },
    }
}

/// Builds the tree of a branch: of what a group holds if the branch is one
/// group, of the branch itself otherwise.
fn compose_branch(tokens: &Vec<Token>, from: usize, to: usize) -> (r: Result<Possible, CoreError>)
    requires
        from <= to <= tokens.len(),
    ensures
        ({
            let s = models(tokens@);
            let expected = if to - from == 1 && s[from as int] is Paren {
                composed(s[from as int]->Paren_0, 0, s[from as int]->Paren_0.len() as int)
            } else {
                composed(s, from as int, to as int)
            };
            match r {
                Ok(p) => expected == Ok::<Tree, Fault>(p@),
                Err(e) => expected == Err::<Tree, Fault>(e@),
            }
        }),
    decreases tokens, to - from, 1int,
{
    if to - from == 1 {
        if let Token::Paren(inner) = &tokens[from] {
            proof {
                paren_model(*inner);
                assert(decreases_to!(*tokens => tokens@[from as int]));
            }
            return compose(inner, 0, inner.len());
        }
    }
    compose(tokens, from, to)
}

/// Builds the expression tree of tokens.
///
/// One token is a leaf. More split at the last operator of the lowest rank
/// that stands strictly inside; a branch that is one group is built from
/// what the group holds. Fails as malformed on no tokens and on tokens that
/// do not split.
pub fn three_composer(tokens: Vec<Token>) -> (r: Result<Possible, CoreError>)
    ensures
        match r {
            Ok(p) => tree(models(tokens@)) == Ok::<Tree, Fault>(p@),
            Err(e) => tree(models(tokens@)) == Err::<Tree, Fault>(e@),
        },
{
    compose(&tokens, 0, tokens.len())
}

/// The tree of the tokens of an expression, after post-processing.
pub open spec fn prepared(s: Seq<Tok>) -> Result<Tree, Fault> {
    match post_processed(s) {
        None => Err(Fault::Parenthesis),
        Some(p) => tree(p),
    }
}

/// What the tokens of an expression are worth under the host's arithmetic.
pub open spec fn calculated(s: Seq<Tok>, f: Arithmetic) -> Result<u64, Fault> {
    match prepared(s) {
        Err(e) => Err(e),
        Ok(t) => value(t, f),
    }
}

/// Begins the calculation of an expression: post-processes its tokens,
/// builds their tree and begins its evaluation.
///
/// Under every arithmetic, the evaluation ends with what the tokens are
/// worth; where post-processing or the tree fails, it has ended with that
/// failure.
pub fn calculate(tokens: Vec<Token>) -> (r: Evaluation)
    ensures
        r.awaits() is None,
        forall|f: Arithmetic|
            #![trigger r.outcome(f)]
            #![trigger calculated(models(tokens@), f)]
            r.outcome(f) == calculated(models(tokens@), f),
{
    let built = match post_process_operation(tokens) {
        Err(e) => Err(e),
        Ok(ready) => three_composer(ready),
    };
    match built {
        Err(e) => Evaluation { pending: Vec::new(), stage: Stage::Finished(Err(e)) },
        Ok(p) => Evaluation::of(p),
    }
}

/// Unwrapping leaves no group of one token on the outside, and unwrapping
/// again changes nothing.
pub proof fn unwrapping_is_idempotent(t: Tok)
    ensures
        unwrapped(t) matches Tok::Paren(inner) ==> inner.len() != 1,
        unwrapped(unwrapped(t)) == unwrapped(t),
    decreases t,
{
    if let Tok::Paren(inner) = t {
        if inner.len() == 1 {
            unwrapping_is_idempotent(inner[0]);
        }
    }
}

/// Collapsing twice is collapsing once.
pub proof fn collapsing_is_idempotent(s: Seq<Tok>)
    ensures
        collapsed(collapsed(s)) == collapsed(s),
{
    let once = collapsed(s);
    assert forall|i: int| 0 <= i < s.len() implies collapsed(once)[i] == once[i] by {
        unwrapping_is_idempotent(s[i]);
    }
    assert(collapsed(collapsed(s)) =~= collapsed(s));
}

/// The tokens with each group written out again between parentheses, from
/// position `i` on.
pub open spec fn unfolded(s: Seq<Tok>, i: int) -> Seq<Tok>
    decreases s, s.len() - i,
{
    if i < 0 || i >= s.len() {
        Seq::empty()
    } else {
        let head = match s[i] {
            Tok::Paren(inner) => seq![Tok::ParenOpen] + unfolded(inner, 0) + seq![Tok::ParenClose],
            t => seq![t],
        };
        head + unfolded(s, i + 1)
    }
}

/// The unfinished groups written out, each behind its opening parenthesis.
pub open spec fn unfolded_stack(open: Seq<Seq<Tok>>, current: Seq<Tok>) -> Seq<Tok>
    decreases open.len(),
{
    if open.len() == 0 {
        unfolded(current, 0)
    } else {
        unfolded_stack(open.drop_last(), open.last()) + seq![Tok::ParenOpen] + unfolded(current, 0)
    }
}

/// Writing out tokens with one more at their end.
pub proof fn unfolded_push(s: Seq<Tok>, t: Tok, i: int)
    requires
        0 <= i <= s.len(),
    ensures
        unfolded(s.push(t), i) == unfolded(s, i) + unfolded(seq![t], 0),
    decreases s.len() - i,
{
    let more = s.push(t);
    if i < s.len() {
        unfolded_push(s, t, i + 1);
        assert(more[i] == s[i]);
        let head = match s[i] {
            Tok::Paren(inner) => seq![Tok::ParenOpen] + unfolded(inner, 0) + seq![Tok::ParenClose],
            x => seq![x],
        };
        assert(head + (unfolded(s, i + 1) + unfolded(seq![t], 0)) =~= (head + unfolded(s, i + 1))
            + unfolded(seq![t], 0));
    } else {
        assert(more[i] == t);
        assert(seq![t][0] == t);
        assert(unfolded(more, i + 1) =~= Seq::<Tok>::empty());
        assert(unfolded(seq![t], 1) =~= Seq::<Tok>::empty());
        assert(unfolded(s, i) =~= Seq::<Tok>::empty());
        assert(unfolded(more, i) =~= unfolded(seq![t], 0));
        assert(unfolded(s, i) + unfolded(seq![t], 0) =~= unfolded(seq![t], 0));
    }
}

/// Folding from a state that writes out to the first `i` tokens yields
/// tokens that write out to all of them.
pub proof fn folded_unfolds(s: Seq<Tok>, i: int, open: Seq<Seq<Tok>>, current: Seq<Tok>)
    requires
        flat(s),
        0 <= i <= s.len(),
        unfolded_stack(open, current) == s.subrange(0, i),
    ensures
        folded(s, i, open, current) matches Some(out) ==> unfolded(out, 0) == s,
    decreases s.len() - i,
{
    if i >= s.len() {
        assert(s.subrange(0, i) =~= s);
    } else if s[i] is ParenOpen {
        let next = open.push(current);
        assert(next.drop_last() =~= open);
        assert(unfolded(Seq::<Tok>::empty(), 0) =~= Seq::<Tok>::empty());
        assert(unfolded_stack(next, Seq::empty()) =~= s.subrange(0, i).push(s[i]));
        assert(s.subrange(0, i).push(s[i]) =~= s.subrange(0, i + 1));
        folded_unfolds(s, i + 1, next, Seq::empty());
    } else if s[i] is ParenClose {
        if open.len() > 0 {
            let group = Tok::Paren(current);
            let around = open.last().push(group);
            unfolded_push(open.last(), group, 0);
            assert(seq![group][0] == group);
            assert(unfolded(seq![group], 1) =~= Seq::<Tok>::empty());
            assert(unfolded(seq![group], 0) =~= seq![Tok::ParenOpen] + unfolded(current, 0)
                + seq![Tok::ParenClose]);
            unfolded_stack_grows(open.drop_last(), open.last(), unfolded(seq![group], 0), around);
            assert(unfolded_stack(open.drop_last(), around) =~= s.subrange(0, i).push(s[i]));
            assert(s.subrange(0, i).push(s[i]) =~= s.subrange(0, i + 1));
            folded_unfolds(s, i + 1, open.drop_last(), around);
        }
    } else {
        let more = current.push(s[i]);
        unfolded_push(current, s[i], 0);
        assert(seq![s[i]][0] == s[i]);
        assert(unfolded(seq![s[i]], 1) =~= Seq::<Tok>::empty());
        assert(unfolded(seq![s[i]], 0) =~= seq![s[i]]);
        unfolded_stack_grows(open, current, seq![s[i]], more);
        assert(s.subrange(0, i) + seq![s[i]] =~= s.subrange(0, i + 1));
        folded_unfolds(s, i + 1, open, more);
    }
}

/// What more tokens in the innermost unfinished group add to the whole.
pub proof fn unfolded_stack_grows(
    open: Seq<Seq<Tok>>,
    current: Seq<Tok>,
    added: Seq<Tok>,
    more: Seq<Tok>,
)
    requires
        unfolded(more, 0) == unfolded(current, 0) + added,
    ensures
        unfolded_stack(open, more) == unfolded_stack(open, current) + added,
{
    if open.len() == 0 {
    } else {
        let below = unfolded_stack(open.drop_last(), open.last()) + seq![Tok::ParenOpen];
        assert(below + (unfolded(current, 0) + added) =~= (below + unfolded(current, 0)) + added);
    }
}

/// Folding loses nothing: written out again between parentheses, the
/// groups of the result give back the tokens that were folded.
pub proof fn folding_is_undone_by_unfolding(s: Seq<Tok>)
    requires
        flat(s),
    ensures
        fold(s) matches Some(out) ==> unfolded(out, 0) == s,
{
    assert(unfolded(Seq::<Tok>::empty(), 0) =~= Seq::<Tok>::empty());
    assert(s.subrange(0, 0) =~= Seq::<Tok>::empty());
    folded_unfolds(s, 0, Seq::empty(), Seq::empty());
}

/// Folding reads a written-out run of bare tokens back: where the tokens
/// of `s` from `p` on are those of `g` from `i` on written out, folding
/// them adds the tokens of `g` from `i` on to the innermost unfinished
/// group.
pub proof fn folded_reads_back(
    s: Seq<Tok>,
    p: int,
    open: Seq<Seq<Tok>>,
    current: Seq<Tok>,
    g: Seq<Tok>,
    i: int,
)
    requires
        all_bare(g),
        0 <= i <= g.len(),
        0 <= p,
        p + unfolded(g, i).len() <= s.len(),
        s.subrange(p, p + unfolded(g, i).len()) == unfolded(g, i),
    ensures
        folded(s, p, open, current) == folded(
            s,
            p + unfolded(g, i).len(),
            open,
            current + g.subrange(i, g.len() as int),
        ),
    decreases g, g.len() - i,
{
    let written = unfolded(g, i);
    let n = written.len() as int;
    if i >= g.len() {
        assert(current + g.subrange(i, g.len() as int) =~= current);
    } else {
        let rest = unfolded(g, i + 1);
        let tail = g.subrange(i + 1, g.len() as int);
        assert(bare(g[i]));
        assert(current.push(g[i]) + tail =~= current + g.subrange(i, g.len() as int));
        match g[i] {
            Tok::Paren(inner) => {
                let inside = unfolded(inner, 0);
                let m = inside.len() as int;
                let head = seq![Tok::ParenOpen] + inside + seq![Tok::ParenClose];
                assert(written == head + rest);
                assert(n == m + 2 + rest.len());
                assert(s[p] == written[0]);
                assert(s[p + 1 + m] == written[1 + m]);
                assert(s.subrange(p + 1, p + 1 + m) =~= inside) by {
                    assert forall|k: int| 0 <= k < m implies s[p + 1 + k] == inside[k] by {
                        assert(s[p + 1 + k] == written[1 + k]);
                    }
                }
                assert(s.subrange(p + m + 2, p + n) =~= rest) by {
                    let q = p + m + 2;
                    assert forall|k: int| 0 <= k < rest.len() implies s[q + k] == rest[k] by {
                        assert(s[p + m + 2 + k] == written[m + 2 + k]);
                    }
                }
                let around = open.push(current);
                folded_reads_back(s, p + 1, around, Seq::empty(), inner, 0);
                assert(Seq::<Tok>::empty() + inner.subrange(0, inner.len() as int) =~= inner);
                assert(around.drop_last() =~= open);
                assert(around.last() == current);
                folded_reads_back(s, p + m + 2, open, current.push(g[i]), g, i + 1);
            },
            t => {
                assert(written == seq![t] + rest);
                assert(s[p] == written[0]);
                assert(s.subrange(p + 1, p + n) =~= rest) by {
                    assert forall|k: int| 0 <= k < rest.len() implies s[p + 1 + k] == rest[k] by {
                        assert(s[p + 1 + k] == written[1 + k]);
                    }
                }
                folded_reads_back(s, p + 1, open, current.push(t), g, i + 1);
            },
        }
    }
}

/// Folding succeeds on balanced tokens: bare tokens written out between
/// parentheses fold back into themselves. With the law before, folding
/// fails on flat tokens exactly when they are no bare tokens written out.
pub proof fn unfolding_is_undone_by_folding(g: Seq<Tok>)
    requires
        all_bare(g),
    ensures
        fold(unfolded(g, 0)) == Some(g),
{
    let s = unfolded(g, 0);
    assert(s.subrange(0, s.len() as int) =~= s);
    folded_reads_back(s, 0, Seq::empty(), Seq::empty(), g, 0);
    assert(Seq::<Tok>::empty() + g.subrange(0, g.len() as int) =~= g);
}

/// Post-processing the tokens of a lexed line leaves no parenthesis behind:
/// whatever values its numerals have, either it fails or no token of the
/// result is a parenthesis or holds one at any depth.
pub proof fn post_processing_a_line_leaves_no_parenthesis(line: Seq<char>, values: Seq<u64>)
    ensures
        lex(line, 0) matches Ok(found) ==> (post_processed(valued(found, values)) matches Some(out)
            ==> all_bare(out)),
{
    if let Ok(found) = lex(line, 0) {
        lexer_yields_no_group(line, 0);
        let tokens = valued(found, values);
        assert(flat(tokens));
        post_processing_leaves_no_parenthesis(tokens);
    }
}

/// There is one split point at most.
pub proof fn split_is_unique(s: Seq<Tok>, from: int, to: int, k: int)
    requires
        is_split(s, from, to, k),
    ensures
        has_split(s, from, to),
        split_point(s, from, to) == k,
{
    let other = split_point(s, from, to);
    assert(is_split(s, from, to, other));
    if other < k {
        assert(rank_at(s, k) > rank_at(s, other));
        assert(rank_at(s, other) >= rank_at(s, k));
    } else if k < other {
        assert(rank_at(s, other) > rank_at(s, k));
        assert(rank_at(s, k) >= rank_at(s, other));
    }
}

/// The tree of two operands around one operator.
pub proof fn one_operator_joins_two_leaves(s: Seq<Tok>, from: int)
    requires
        0 <= from,
        from + 3 <= s.len(),
        s[from + 1] is Operator,
        !(s[from] is Paren),
        !(s[from + 2] is Paren),
    ensures
        composed(s, from, from + 3) == Ok::<Tree, Fault>(
            Tree::Node(
                Box::new(Tree::Leaf(s[from])),
                s[from + 1]->Operator_0,
                Box::new(Tree::Leaf(s[from + 2])),
            ),
        ),
{
    assert(is_split(s, from, from + 3, from + 1));
    split_is_unique(s, from, from + 3, from + 1);
    assert(composed(s, from, from + 1) == Ok::<Tree, Fault>(Tree::Leaf(s[from])));
    assert(composed(s, from + 2, from + 3) == Ok::<Tree, Fault>(Tree::Leaf(s[from + 2])));
}

/// Precedence and associativity: of two operators between three operands,
/// the second one is applied last unless it ranks higher than the first.
/// So operators of one rank group from the left, and an operator of higher
/// rank binds its operands first.
pub proof fn two_operators_group_by_rank(s: Seq<Tok>)
    requires
        s.len() == 5,
        s[1] is Operator,
        s[3] is Operator,
        !(s[2] is Operator),
        !(s[0] is Paren),
        !(s[2] is Paren),
        !(s[4] is Paren),
    ensures
        tree(s) == Ok::<Tree, Fault>(
            if rank_at(s, 3) <= rank_at(s, 1) {
                Tree::Node(
                    Box::new(
                        Tree::Node(
                            Box::new(Tree::Leaf(s[0])),
                            s[1]->Operator_0,
                            Box::new(Tree::Leaf(s[2])),
                        ),
                    ),
                    s[3]->Operator_0,
                    Box::new(Tree::Leaf(s[4])),
                )
            } else {
                Tree::Node(
                    Box::new(Tree::Leaf(s[0])),
                    s[1]->Operator_0,
                    Box::new(
                        Tree::Node(
                            Box::new(Tree::Leaf(s[2])),
                            s[3]->Operator_0,
                            Box::new(Tree::Leaf(s[4])),
                        ),
                    ),
                )
            },
        ),
{
    if rank_at(s, 3) <= rank_at(s, 1) {
        assert(is_split(s, 0, 5, 3));
        split_is_unique(s, 0, 5, 3);
        one_operator_joins_two_leaves(s, 0);
        assert(composed(s, 4, 5) == Ok::<Tree, Fault>(Tree::Leaf(s[4])));
    } else {
        assert(is_split(s, 0, 5, 1));
        split_is_unique(s, 0, 5, 1);
        one_operator_joins_two_leaves(s, 2);
        assert(composed(s, 0, 1) == Ok::<Tree, Fault>(Tree::Leaf(s[0])));
    }
}

} // verus!
