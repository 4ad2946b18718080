use malors::calculator::{
    calculate, post_process_operation, post_process_paren, remove_paren, three_composer, Expression,
    Possible,
};
use malors::error::{CoreError, ErrorKind};
use malors::evaluation::{Evaluation, Progress};
use malors::frames::{clone_line, Body, Frame, Reply, Request};
use malors::line_type::{construct_line_type, LineType};
use malors::memory::Memory;
use malors::number;
use malors::run_line;
use malors::runner::{get_from_mem, replace_var, result, run, LineResult, Session};
use malors::tokenizer::{
    is_special, numerals, tokenize2, tokenize_name, tokenize_num, tokenize_special, Compare,
    Computation, Keyword, Lexeme, Operation, Operator, Token,
};

fn num(x: f64) -> Token {
    Token::Number(x.to_bits())
}

fn name(s: &str) -> Token {
    Token::Name(s.to_string())
}

fn op(o: Operator) -> Token {
    Token::Operator(o)
}

fn compute(c: Computation) -> u64 {
    let a = f64::from_bits(c.left);
    let b = f64::from_bits(c.right);
    let r = match c.operator {
        Operator::Plus => a + b,
        Operator::Minus => a - b,
        Operator::Multiply => a * b,
        Operator::Divide => a / b,
        Operator::Exponent => a.powf(b),
        Operator::Log => a.log(b),
        Operator::Factorial | Operator::Absent => unreachable!(),
    };
    r.to_bits()
}

fn tokens_of(line: &str) -> Vec<Token> {
    let found = tokenize2(line).unwrap();
    let values: Vec<u64> =
        numerals(&found).iter().map(|t| t.parse::<f64>().unwrap().to_bits()).collect();
    tokenize_num(&found, &values).unwrap()
}

fn finish(mut ev: Evaluation) -> Result<f64, CoreError> {
    loop {
        let (next, progress) = ev.advance();
        ev = next;
        match progress {
            Progress::Compute(c) => ev = ev.supply(compute(c)),
            Progress::Done(r) => return r.map(f64::from_bits),
        }
    }
}

fn evaluate(line: &str) -> Result<f64, CoreError> {
    finish(calculate(tokens_of(line)))
}

struct Ran {
    end: Result<LineResult, CoreError>,
    shown: Vec<String>,
    reported: Vec<CoreError>,
    moves: usize,
}

fn drive(mut session: Session, memory: &mut Memory) -> Ran {
    let mut shown = Vec::new();
    let mut reported = Vec::new();
    let mut moves = 0;
    loop {
        moves += 1;
        assert!(moves < 100_000);
        let (next, request) = session.resume(memory);
        session = next;
        match request {
            Request::Parse(texts) => {
                let values = texts.iter().map(|t| t.parse::<f64>().unwrap().to_bits()).collect();
                session = session.supply(Reply::Numbers(values));
            }
            Request::Compute(c) => session = session.supply(Reply::Number(compute(c))),
            Request::Format(v) => {
                session = session.supply(Reply::Text(format!("{}", f64::from_bits(v))))
            }
            Request::Show(text) => shown.push(text),
            Request::Report(e) => reported.push(e),
            Request::Continue => {}
            Request::Finished(end) => return Ran { end, shown, reported, moves },
        }
    }
}

fn exec(line: &str, memory: &mut Memory) -> Ran {
    drive(run_line(line), memory)
}

fn output(line: &str, memory: &mut Memory) -> String {
    match exec(line, memory).end {
        Ok(LineResult::Output(text)) => text,
        other => panic!("no output: {:?}", other),
    }
}

fn store(entries: &[(&str, f64)]) -> Memory {
    let mut memory = Memory::new();
    for (k, v) in entries {
        memory.insert(k.to_string(), v.to_bits());
    }
    memory
}

fn value_of(memory: &Memory, key: &str) -> Option<f64> {
    memory.get(key).map(f64::from_bits)
}

const SAMPLES: [f64; 14] = [
    0.0,
    -0.0,
    1.0,
    -1.0,
    2.5,
    -2.5,
    5e-324,
    -5e-324,
    f64::MAX,
    f64::MIN,
    f64::INFINITY,
    f64::NEG_INFINITY,
    f64::NAN,
    1e-310,
];

#[test]
fn negation_flips_the_sign_as_the_hardware_does() {
    for x in SAMPLES {
        assert_eq!(number::negate(x.to_bits()), (-x).to_bits());
    }
    assert_eq!(number::negate(3.0f64.to_bits()), (-3.0f64).to_bits());
}

#[test]
fn zero_and_nan_tests_agree_with_the_hardware() {
    for x in SAMPLES {
        assert_eq!(number::zero(x.to_bits()), x == 0.0);
        assert_eq!(number::nan(x.to_bits()), x.is_nan());
    }
}

#[test]
fn comparisons_agree_with_the_hardware() {
    for a in SAMPLES {
        for b in SAMPLES {
            let (x, y) = (a.to_bits(), b.to_bits());
            assert_eq!(Compare::Equal.compare(x, y), a == b, "{} == {}", a, b);
            assert_eq!(Compare::NotEqual.compare(x, y), a != b, "{} != {}", a, b);
            assert_eq!(Compare::LessThan.compare(x, y), a < b, "{} < {}", a, b);
            assert_eq!(Compare::GreaterThan.compare(x, y), a > b, "{} > {}", a, b);
            assert_eq!(Compare::LessThanOrEqual.compare(x, y), a <= b, "{} <= {}", a, b);
            assert_eq!(Compare::GreaterThanOrEqual.compare(x, y), a >= b, "{} >= {}", a, b);
            assert_eq!(number::equal(x, y), a == b);
            assert_eq!(number::less(x, y), a < b);
        }
    }
}

#[test]
fn constants_are_those_of_the_standard_library() {
    assert_eq!(number::PI, std::f64::consts::PI.to_bits());
    assert_eq!(number::E, std::f64::consts::E.to_bits());
    assert_eq!(number::SIGN, (-0.0f64).to_bits());
    assert_eq!(number::INFINITE, f64::INFINITY.to_bits());
}

#[test]
fn ranks_follow_the_precedence_table() {
    assert_eq!(Operator::Exponent.priority(), 3);
    assert_eq!(Operator::Log.priority(), 3);
    assert_eq!(Operator::Multiply.priority(), 2);
    assert_eq!(Operator::Divide.priority(), 2);
    assert_eq!(Operator::Plus.priority(), 1);
    assert_eq!(Operator::Minus.priority(), 1);
    assert_eq!(Operator::Absent.priority(), 4);
    assert_eq!(Operator::Factorial.priority(), 0);
}

#[test]
fn over_is_at_least_as_high() {
    assert!(Operator::Absent.over(Operator::Plus));
    assert!(Operator::Absent.over(Operator::Absent));
    assert!(Operator::Plus.over(Operator::Minus));
    assert!(Operator::Minus.over(Operator::Plus));
    assert!(Operator::Multiply.over(Operator::Plus));
    assert!(!Operator::Plus.over(Operator::Multiply));
    assert!(!Operator::Multiply.over(Operator::Exponent));
    assert!(Operator::Exponent.over(Operator::Log));
}

#[test]
fn operate_decides_what_is_due() {
    let (a, b) = (6.0f64.to_bits(), 3.0f64.to_bits());
    assert_eq!(
        Operator::Plus.operate(a, b),
        Ok(Computation { operator: Operator::Plus, left: a, right: b })
    );
    assert_eq!(
        Operator::Divide.operate(a, b),
        Ok(Computation { operator: Operator::Divide, left: a, right: b })
    );
    assert_eq!(Operator::Divide.operate(a, 0.0f64.to_bits()), Err(CoreError::DivisionByZero));
    assert_eq!(Operator::Divide.operate(a, (-0.0f64).to_bits()), Err(CoreError::DivisionByZero));
    assert_eq!(
        Operator::Factorial.operate(a, b),
        Err(CoreError::Unsupported(Operator::Factorial))
    );
    assert_eq!(Operator::Absent.operate(a, b), Err(CoreError::Unsupported(Operator::Absent)));
    assert_eq!(
        Operator::Divide.operate(a, f64::NAN.to_bits()),
        Ok(Computation { operator: Operator::Divide, left: a, right: f64::NAN.to_bits() })
    );
}

#[test]
fn assignment_operators_name_their_arithmetic() {
    assert_eq!(Operation::Assign.operator(), Operator::Absent);
    assert_eq!(Operation::AddVar.operator(), Operator::Plus);
    assert_eq!(Operation::SubtractVar.operator(), Operator::Minus);
    assert_eq!(Operation::MultiplyVar.operator(), Operator::Multiply);
    assert_eq!(Operation::DivideVar.operator(), Operator::Divide);
}

#[test]
fn special_characters_are_the_eight_symbols() {
    for c in "<>=*/-+^".chars() {
        assert!(is_special(c));
    }
    for c in "()!:a1 _.%".chars() {
        assert!(!is_special(c));
    }
}

#[test]
fn words_become_keywords_constants_or_names() {
    assert_eq!(tokenize_name("if".to_string()), Token::Key(Keyword::If));
    assert_eq!(tokenize_name("while".to_string()), Token::Key(Keyword::While));
    assert_eq!(tokenize_name("wl".to_string()), Token::Key(Keyword::While));
    assert_eq!(tokenize_name("del".to_string()), Token::Key(Keyword::While));
    assert_eq!(tokenize_name("PI".to_string()), Token::Number(std::f64::consts::PI.to_bits()));
    assert_eq!(tokenize_name("e".to_string()), Token::Number(std::f64::consts::E.to_bits()));
    assert_eq!(tokenize_name("pi".to_string()), name("pi"));
    assert_eq!(tokenize_name("iff".to_string()), name("iff"));
    assert_eq!(tokenize_name("x_1".to_string()), name("x_1"));
}

fn tokenize_special_of(c: char, next: Option<char>) -> (Token, bool) {
    tokenize_special(c, next).unwrap()
}

#[test]
fn symbols_take_the_longest_entry_of_the_table() {
    assert_eq!(tokenize_special('a', Some('=')), None);
    assert_eq!(tokenize_special('(', None), None);
    assert_eq!(tokenize_special_of('*', Some('*')), (op(Operator::Exponent), true));
    assert_eq!(tokenize_special_of('/', Some('/')), (op(Operator::Log), true));
    assert_eq!(tokenize_special_of('=', Some('=')), (Token::Compare(Compare::Equal), true));
    assert_eq!(tokenize_special_of('<', Some('=')), (Token::Compare(Compare::LessThanOrEqual), true));
    assert_eq!(
        tokenize_special_of('>', Some('=')),
        (Token::Compare(Compare::GreaterThanOrEqual), true)
    );
    assert_eq!(tokenize_special_of('+', Some('=')), (Token::Operation(Operation::AddVar), true));
    assert_eq!(tokenize_special_of('-', Some('=')), (Token::Operation(Operation::SubtractVar), true));
    assert_eq!(tokenize_special_of('*', Some('=')), (Token::Operation(Operation::MultiplyVar), true));
    assert_eq!(tokenize_special_of('/', Some('=')), (Token::Operation(Operation::DivideVar), true));
    assert_eq!(tokenize_special_of('*', Some('-')), (op(Operator::Multiply), false));
    assert_eq!(tokenize_special_of('+', None), (op(Operator::Plus), false));
    assert_eq!(tokenize_special_of('-', Some('3')), (op(Operator::Minus), false));
    assert_eq!(tokenize_special_of('/', None), (op(Operator::Divide), false));
    assert_eq!(tokenize_special_of('^', Some('^')), (op(Operator::Exponent), false));
    assert_eq!(tokenize_special_of('<', Some('<')), (Token::Compare(Compare::LessThan), false));
    assert_eq!(tokenize_special_of('>', None), (Token::Compare(Compare::GreaterThan), false));
    assert_eq!(tokenize_special_of('=', Some('<')), (Token::Operation(Operation::Assign), false));
}

#[test]
fn lexer_splits_a_line_into_lexemes() {
    let found = tokenize2("x1 += 2.5*(y - 3)").unwrap();
    assert_eq!(
        found,
        vec![
            Lexeme::Token(name("x1")),
            Lexeme::Token(Token::Operation(Operation::AddVar)),
            Lexeme::Numeral("2.5".to_string()),
            Lexeme::Token(op(Operator::Multiply)),
            Lexeme::Token(Token::ParenOpen),
            Lexeme::Token(name("y")),
            Lexeme::Token(op(Operator::Minus)),
            Lexeme::Numeral("3".to_string()),
            Lexeme::Token(Token::ParenClose),
        ]
    );
}

#[test]
fn lexer_keeps_the_last_token_of_a_line() {
    assert_eq!(tokens_of("x=5"), vec![name("x"), Token::Operation(Operation::Assign), num(5.0)]);
    assert_eq!(tokens_of("x"), vec![name("x")]);
    assert_eq!(tokens_of("x="), vec![name("x"), Token::Operation(Operation::Assign)]);
    assert_eq!(tokens_of("x=5\n"), tokens_of("x=5"));
}

#[test]
fn lexer_handles_empty_and_blank_lines() {
    assert_eq!(tokenize2("").unwrap(), vec![]);
    assert_eq!(tokenize2("  \t \n").unwrap(), vec![]);
}

#[test]
fn lexer_reads_numerals_with_one_point() {
    assert_eq!(tokenize2("12").unwrap(), vec![Lexeme::Numeral("12".to_string())]);
    assert_eq!(tokenize2("12.").unwrap(), vec![Lexeme::Numeral("12.".to_string())]);
    assert_eq!(tokenize2("12.75").unwrap(), vec![Lexeme::Numeral("12.75".to_string())]);
    assert_eq!(tokens_of("12."), vec![num(12.0)]);
    assert_eq!(tokens_of("0.125"), vec![num(0.125)]);
}

#[test]
fn lexer_refuses_a_second_point() {
    assert_eq!(tokenize2("1.2.3"), Err(CoreError::TwoPoints));
    assert_eq!(tokenize2("x = 1..2"), Err(CoreError::TwoPoints));
    assert_eq!(tokenize2("1.2.3").unwrap_err().kind(), ErrorKind::Lex);
}

#[test]
fn lexer_refuses_other_characters() {
    assert_eq!(tokenize2("x = 5 $"), Err(CoreError::IncorrectChar('$')));
    assert_eq!(tokenize2("a ! b"), Err(CoreError::IncorrectChar('!')));
    assert_eq!(tokenize2(".5"), Err(CoreError::IncorrectChar('.')));
    assert_eq!(tokenize2("a ! b").unwrap_err().kind(), ErrorKind::Lex);
    assert_eq!(tokenize2("$ 1.2.3"), Err(CoreError::IncorrectChar('$')));
    assert_eq!(tokenize2("1.2.3 $"), Err(CoreError::TwoPoints));
}

#[test]
fn lexer_follows_unicode_for_words_and_spaces() {
    assert_eq!(tokens_of("été"), vec![name("été")]);
    assert_eq!(tokens_of("x\u{0663}"), vec![name("x\u{0663}")]);
    assert_eq!(tokens_of("a\u{2003}b"), vec![name("a"), name("b")]);
    assert_eq!(tokenize2("\u{0663}"), Err(CoreError::IncorrectChar('\u{0663}')));
    assert_eq!(tokens_of("_a b_"), vec![name("_a"), name("b_")]);
}

#[test]
fn lexer_munches_symbols_maximally() {
    assert_eq!(tokens_of("5*-3"), vec![num(5.0), op(Operator::Multiply), op(Operator::Minus), num(3.0)]);
    assert_eq!(
        tokens_of("a<==b"),
        vec![
            name("a"),
            Token::Compare(Compare::LessThanOrEqual),
            Token::Operation(Operation::Assign),
            name("b")
        ]
    );
    assert_eq!(
        tokens_of("a**b^c//d"),
        vec![
            name("a"),
            op(Operator::Exponent),
            name("b"),
            op(Operator::Exponent),
            name("c"),
            op(Operator::Log),
            name("d")
        ]
    );
    assert_eq!(
        tokens_of("==="),
        vec![Token::Compare(Compare::Equal), Token::Operation(Operation::Assign)]
    );
}

#[test]
fn lexer_reads_keywords_and_constants() {
    assert_eq!(
        tokens_of("if x>3: y=1"),
        vec![
            Token::Key(Keyword::If),
            name("x"),
            Token::Compare(Compare::GreaterThan),
            num(3.0),
            Token::Colon,
            name("y"),
            Token::Operation(Operation::Assign),
            num(1.0),
        ]
    );
    assert_eq!(tokens_of("2PI"), vec![num(2.0), num(std::f64::consts::PI)]);
    assert_eq!(tokens_of("e"), vec![num(std::f64::consts::E)]);
}

#[test]
fn numerals_are_listed_in_order() {
    let found = tokenize2("1+x*2.5-30.").unwrap();
    assert_eq!(numerals(&found), vec!["1".to_string(), "2.5".to_string(), "30.".to_string()]);
    assert_eq!(numerals(&tokenize2("x+y").unwrap()), Vec::<String>::new());
}

#[test]
fn numerals_need_one_value_each() {
    let found = tokenize2("1+2").unwrap();
    assert_eq!(tokenize_num(&found, &vec![]), None);
    assert_eq!(tokenize_num(&found, &vec![1]), None);
    assert_eq!(tokenize_num(&found, &vec![1, 2, 3]), None);
    assert_eq!(
        tokenize_num(&found, &vec![7, 9]),
        Some(vec![Token::Number(7), op(Operator::Plus), Token::Number(9)])
    );
    assert_eq!(tokenize_num(&tokenize2("x").unwrap(), &vec![]), Some(vec![name("x")]));
}

#[test]
fn signs_merge_into_numbers() {
    let minus = || op(Operator::Minus);
    assert_eq!(
        post_process_operation(vec![minus(), num(5.0), op(Operator::Plus), num(3.0)]),
        Ok(vec![num(-5.0), op(Operator::Plus), num(3.0)])
    );
    assert_eq!(
        post_process_operation(vec![num(5.0), minus(), num(3.0)]),
        Ok(vec![num(5.0), minus(), num(3.0)])
    );
    assert_eq!(
        post_process_operation(vec![num(5.0), op(Operator::Multiply), minus(), num(3.0)]),
        Ok(vec![num(5.0), op(Operator::Multiply), num(-3.0)])
    );
    assert_eq!(
        post_process_operation(vec![minus(), minus(), num(3.0)]),
        Ok(vec![minus(), num(-3.0)])
    );
    assert_eq!(
        post_process_operation(vec![minus(), num(5.0), minus(), num(3.0)]),
        Ok(vec![num(-5.0), minus(), num(3.0)])
    );
    assert_eq!(post_process_operation(vec![minus(), name("x")]), Ok(vec![minus(), name("x")]));
    assert_eq!(post_process_operation(vec![minus()]), Ok(vec![minus()]));
}

#[test]
fn sign_behind_a_closing_parenthesis_subtracts() {
    assert_eq!(
        post_process_operation(tokens_of("(2+3)-4")),
        Ok(vec![
            Token::Paren(vec![num(2.0), op(Operator::Plus), num(3.0)]),
            op(Operator::Minus),
            num(4.0)
        ])
    );
    assert_eq!(
        post_process_operation(tokens_of("(-4)")),
        Ok(vec![num(-4.0)])
    );
}

#[test]
fn parentheses_fold_into_groups() {
    assert_eq!(
        post_process_paren(tokens_of("a(b(c d))f")),
        Ok(vec![
            name("a"),
            Token::Paren(vec![name("b"), Token::Paren(vec![name("c"), name("d")])]),
            name("f"),
        ])
    );
    assert_eq!(post_process_paren(tokens_of("()")), Ok(vec![Token::Paren(vec![])]));
    assert_eq!(post_process_paren(vec![]), Ok(vec![]));
}

#[test]
fn mismatched_parentheses_are_refused() {
    for line in ["(", ")", "(2+3", "2+3)", ")(", "(()", "())"] {
        assert_eq!(post_process_operation(tokens_of(line)), Err(CoreError::Parenthesis), "{}", line);
        assert_eq!(post_process_paren(tokens_of(line)), Err(CoreError::Parenthesis), "{}", line);
    }
    assert_eq!(CoreError::Parenthesis.kind(), ErrorKind::Paren);
}

fn holds_parenthesis(tokens: &[Token]) -> bool {
    tokens.iter().any(|t| match t {
        Token::ParenOpen | Token::ParenClose => true,
        Token::Paren(inner) => holds_parenthesis(inner),
        _ => false,
    })
}

#[test]
fn post_processing_leaves_no_parenthesis_or_fails() {
    for line in ["((1+2)*(3-(4)))", "(((x)))", "2(3)(4)", "a(", "(b))", "()()", "-(-(2))"] {
        match post_process_operation(tokens_of(line)) {
            Ok(out) => assert!(!holds_parenthesis(&out), "{}", line),
            Err(e) => assert_eq!(e, CoreError::Parenthesis),
        }
    }
}

#[test]
fn products_are_supplied_between_operands() {
    let times = || op(Operator::Multiply);
    let group = || Token::Paren(vec![num(3.0), op(Operator::Plus), num(4.0)]);
    assert_eq!(
        post_process_operation(tokens_of("2(3+4)")),
        Ok(vec![num(2.0), times(), group()])
    );
    assert_eq!(
        post_process_operation(tokens_of("(3+4)2")),
        Ok(vec![group(), times(), num(2.0)])
    );
    assert_eq!(
        post_process_operation(tokens_of("(3+4)(3+4)(3+4)")),
        Ok(vec![group(), times(), group(), times(), group()])
    );
    assert_eq!(
        post_process_operation(tokens_of("2 3 4")),
        Ok(vec![num(2.0), times(), num(3.0), times(), num(4.0)])
    );
    assert_eq!(
        post_process_operation(tokens_of("x y")),
        Ok(vec![name("x"), times(), name("y")])
    );
    assert_eq!(
        post_process_operation(tokens_of("x 2")),
        Ok(vec![name("x"), times(), num(2.0)])
    );
    assert_eq!(
        post_process_operation(tokens_of("x(3+4)x")),
        Ok(vec![name("x"), times(), group(), times(), name("x")])
    );
    assert_eq!(
        post_process_operation(tokens_of("2x")),
        Ok(vec![num(2.0), times(), name("x")])
    );
    assert_eq!(
        post_process_operation(tokens_of("2+x")),
        Ok(vec![num(2.0), op(Operator::Plus), name("x")])
    );
    assert_eq!(post_process_paren(tokens_of("2 3")), Ok(vec![num(2.0), num(3.0)]));
}

#[test]
fn groups_of_one_token_are_unwrapped() {
    assert_eq!(post_process_operation(tokens_of("((((2))))")), Ok(vec![num(2.0)]));
    assert_eq!(
        post_process_operation(tokens_of("((2+3))")),
        Ok(vec![Token::Paren(vec![num(2.0), op(Operator::Plus), num(3.0)])])
    );
    assert_eq!(remove_paren(Token::Paren(vec![Token::Paren(vec![name("x")])])), name("x"));
    assert_eq!(remove_paren(Token::Paren(vec![])), Token::Paren(vec![]));
    assert_eq!(remove_paren(Token::Paren(vec![name("x"), name("y")])), Token::Paren(vec![name("x"), name("y")]));
    assert_eq!(remove_paren(name("x")), name("x"));
    assert_eq!(
        post_process_operation(tokens_of("(2+((3)))")),
        Ok(vec![Token::Paren(vec![
            num(2.0),
            op(Operator::Plus),
            Token::Paren(vec![Token::Paren(vec![num(3.0)])])
        ])])
    );
}

fn shape(p: &Possible) -> String {
    match p {
        Possible::PossToken(Token::Number(n)) => format!("{}", f64::from_bits(*n)),
        Possible::PossToken(t) => format!("{:?}", t),
        Possible::PossExpression(e) => format!("({} {:?} {})", shape(&e.a), e.o, shape(&e.b)),
    }
}

fn tree_of(line: &str) -> Result<String, CoreError> {
    three_composer(post_process_operation(tokens_of(line)).unwrap()).map(|p| shape(&p))
}

#[test]
fn trees_split_at_the_last_operator_of_the_lowest_rank() {
    assert_eq!(tree_of("2+3*4"), Ok("(2 Plus (3 Multiply 4))".to_string()));
    assert_eq!(tree_of("2*3+4"), Ok("((2 Multiply 3) Plus 4)".to_string()));
    assert_eq!(tree_of("8-3-2"), Ok("((8 Minus 3) Minus 2)".to_string()));
    assert_eq!(tree_of("8/4/2"), Ok("((8 Divide 4) Divide 2)".to_string()));
    assert_eq!(tree_of("1+2-3+4"), Ok("(((1 Plus 2) Minus 3) Plus 4)".to_string()));
    assert_eq!(tree_of("2^3^2"), Ok("((2 Exponent 3) Exponent 2)".to_string()));
    assert_eq!(tree_of("2*3^2"), Ok("(2 Multiply (3 Exponent 2))".to_string()));
    assert_eq!(tree_of("(2+3)*4"), Ok("((2 Plus 3) Multiply 4)".to_string()));
    assert_eq!(tree_of("2*(3+4)"), Ok("(2 Multiply (3 Plus 4))".to_string()));
    assert_eq!(tree_of("7"), Ok("7".to_string()));
}

#[test]
fn trees_of_malformed_tokens_are_refused() {
    assert_eq!(three_composer(vec![]).map(|p| shape(&p)), Err(CoreError::Malformed));
    assert_eq!(tree_of("2+"), Err(CoreError::Malformed));
    assert_eq!(tree_of("+2"), Err(CoreError::Malformed));
    assert_eq!(tree_of("2+*3"), Err(CoreError::Malformed));
    assert_eq!(
        three_composer(vec![num(2.0), num(3.0)]).map(|p| shape(&p)),
        Err(CoreError::Malformed)
    );
    assert_eq!(
        three_composer(vec![num(2.0), name("x"), num(3.0), num(4.0)]).map(|p| shape(&p)),
        Err(CoreError::Malformed)
    );
    assert_eq!(tree_of("2*()"), Err(CoreError::Malformed));
    assert_eq!(CoreError::Malformed.kind(), ErrorKind::Malformed);
}

#[test]
fn tree_builders_make_nodes_and_leaves() {
    let e = Expression::new(Possible::token(num(1.0)), Operator::Plus, Possible::token(num(2.0)));
    assert_eq!(e.o, Operator::Plus);
    let p = Possible::expression(e);
    assert_eq!(shape(&p), "(1 Plus 2)");
    match Possible::token(name("x")) {
        Possible::PossToken(t) => assert_eq!(t, name("x")),
        _ => panic!("not a leaf"),
    }
}

#[test]
fn solve_evaluates_an_operation() {
    let e = Expression::new(
        Possible::token(num(6.0)),
        Operator::Divide,
        Possible::expression(Expression::new(
            Possible::token(num(1.0)),
            Operator::Plus,
            Possible::token(num(2.0)),
        )),
    );
    assert_eq!(finish(e.solve()), Ok(2.0));
}

#[test]
fn evaluation_asks_for_each_computation_in_turn() {
    let ev = calculate(tokens_of("(8-3)*(1+1)"));
    let (ev, first) = ev.advance();
    assert_eq!(
        first,
        Progress::Compute(Computation {
            operator: Operator::Minus,
            left: 8.0f64.to_bits(),
            right: 3.0f64.to_bits()
        })
    );
    let (ev, again) = ev.advance();
    assert_eq!(again, first);
    let ev = ev.supply(5.0f64.to_bits());
    let (ev, second) = ev.advance();
    assert_eq!(
        second,
        Progress::Compute(Computation {
            operator: Operator::Plus,
            left: 1.0f64.to_bits(),
            right: 1.0f64.to_bits()
        })
    );
    let ev = ev.supply(2.0f64.to_bits());
    let (ev, third) = ev.advance();
    assert_eq!(
        third,
        Progress::Compute(Computation {
            operator: Operator::Multiply,
            left: 5.0f64.to_bits(),
            right: 2.0f64.to_bits()
        })
    );
    let ev = ev.supply(10.0f64.to_bits());
    let (ev, end) = ev.advance();
    assert_eq!(end, Progress::Done(Ok(10.0f64.to_bits())));
    let ev = ev.supply(99.0f64.to_bits());
    let (_, still) = ev.advance();
    assert_eq!(still, Progress::Done(Ok(10.0f64.to_bits())));
}

#[test]
fn supplied_answers_stand_in_for_computations() {
    let ev = calculate(tokens_of("(8-3)*2"));
    let (ev, first) = ev.advance();
    assert!(matches!(first, Progress::Compute(_)));
    let ev = ev.supply(100.0f64.to_bits());
    let (ev, second) = ev.advance();
    assert_eq!(
        second,
        Progress::Compute(Computation {
            operator: Operator::Multiply,
            left: 100.0f64.to_bits(),
            right: 2.0f64.to_bits()
        })
    );
    let ev = ev.supply(7.0f64.to_bits());
    let (_, end) = ev.advance();
    assert_eq!(end, Progress::Done(Ok(7.0f64.to_bits())));
}

#[test]
fn round_trip_precedence() {
    assert_eq!(evaluate("2+3*4"), Ok(14.0));
}

#[test]
fn subtraction_associates_to_the_left() {
    assert_eq!(evaluate("8-3-2"), Ok(3.0));
    assert_eq!(evaluate("8/4/2"), Ok(1.0));
}

#[test]
fn parentheses_override_precedence() {
    assert_eq!(evaluate("(2+3)*4"), Ok(20.0));
    assert_eq!(evaluate("2*(3+4)"), Ok(14.0));
}

#[test]
fn implicit_multiplication() {
    assert_eq!(evaluate("2(3+4)"), Ok(14.0));
    assert_eq!(evaluate("(3+4)2"), Ok(14.0));
    assert_eq!(evaluate("2PI"), Ok(2.0 * std::f64::consts::PI));
    assert_eq!(evaluate("2(3)(4)"), Ok(24.0));
}

#[test]
fn unary_minus_is_told_from_binary_minus() {
    assert_eq!(evaluate("5-3"), Ok(2.0));
    assert_eq!(evaluate("-5+3"), Ok(-2.0));
    assert_eq!(evaluate("5*-3"), Ok(-15.0));
}

#[test]
fn division_by_zero_fails() {
    assert_eq!(evaluate("1/0"), Err(CoreError::DivisionByZero));
    assert_eq!(evaluate("1/(2-2)"), Err(CoreError::DivisionByZero));
    assert_eq!(evaluate("1/-0"), Err(CoreError::DivisionByZero));
    assert_eq!(CoreError::DivisionByZero.kind(), ErrorKind::DivisionByZero);
}

#[test]
fn nested_single_groups_collapse_to_the_leaf() {
    let ready = post_process_operation(tokens_of("((((2))))")).unwrap();
    assert_eq!(ready, vec![num(2.0)]);
    let leaf = three_composer(ready).unwrap();
    assert_eq!(shape(&leaf), "2");
    assert_eq!(evaluate("((((2))))"), Ok(2.0));
}

#[test]
fn powers_and_logarithms() {
    assert_eq!(evaluate("2**10"), Ok(1024.0));
    assert_eq!(evaluate("2^3"), Ok(8.0));
    assert_eq!(evaluate("8//2"), Ok(8.0f64.log(2.0)));
    assert_eq!(evaluate("2*3^2"), Ok(18.0));
}

#[test]
fn unsupported_operators_fail() {
    let factorial = vec![num(3.0), op(Operator::Factorial), num(1.0)];
    assert_eq!(finish(calculate(factorial)), Err(CoreError::Unsupported(Operator::Factorial)));
    let absent = vec![num(3.0), op(Operator::Absent), num(1.0)];
    assert_eq!(finish(calculate(absent)), Err(CoreError::Unsupported(Operator::Absent)));
    assert_eq!(
        CoreError::Unsupported(Operator::Factorial).kind(),
        ErrorKind::UnsupportedOperator
    );
}

#[test]
fn calculation_fails_as_its_stages_do() {
    assert_eq!(evaluate("(2+3"), Err(CoreError::Parenthesis));
    assert_eq!(evaluate("2+"), Err(CoreError::Malformed));
    assert_eq!(evaluate(""), Err(CoreError::Malformed));
    assert_eq!(evaluate("(2+3)"), Err(CoreError::Malformed));
    assert_eq!(finish(calculate(vec![name("x")])), Err(CoreError::Malformed));
    assert_eq!(
        finish(calculate(vec![name("x"), op(Operator::Plus), num(1.0)])),
        Err(CoreError::Malformed)
    );
    assert_eq!(evaluate("1/0+(2"), Err(CoreError::Parenthesis));
}

#[test]
fn left_branch_fails_first() {
    let both = vec![
        Token::Paren(vec![num(1.0), op(Operator::Divide), num(0.0)]),
        op(Operator::Plus),
        Token::Paren(vec![num(1.0), op(Operator::Factorial), num(0.0)]),
    ];
    assert_eq!(finish(calculate(both)), Err(CoreError::DivisionByZero));
}

fn classify(line: &str) -> Result<LineType, CoreError> {
    construct_line_type(tokens_of(line))
}

#[test]
fn empty_lines_are_nothing() {
    assert!(matches!(classify(""), Ok(LineType::Nothing)));
    assert!(matches!(construct_line_type(vec![]), Ok(LineType::Nothing)));
}

#[test]
fn names_are_printed() {
    match classify("x") {
        Ok(LineType::Out(names)) => assert_eq!(names, vec!["x".to_string()]),
        other => panic!("{:?}", other),
    }
    match classify("a: b: c") {
        Ok(LineType::Out(names)) => {
            assert_eq!(names, vec!["a".to_string(), "b".to_string(), "c".to_string()])
        }
        other => panic!("{:?}", other),
    }
}

#[test]
fn prints_need_whole_pairs() {
    assert!(matches!(classify("a:"), Ok(LineType::Nothing)));
    assert!(matches!(classify("a: b:"), Ok(LineType::Nothing)));
    assert!(matches!(classify("a b"), Ok(LineType::Nothing)));
    assert!(matches!(classify("a: 5"), Ok(LineType::Nothing)));
    assert!(matches!(classify("a: b c"), Ok(LineType::Nothing)));
}

#[test]
fn assignments_carry_their_expression() {
    match classify("x = 2+y") {
        Ok(LineType::VarOperate(var, o, ex)) => {
            assert_eq!(var, "x");
            assert_eq!(o, Operation::Assign);
            assert_eq!(ex, vec![num(2.0), op(Operator::Plus), name("y")]);
        }
        other => panic!("{:?}", other),
    }
    match classify("x /= 4") {
        Ok(LineType::VarOperate(var, o, ex)) => {
            assert_eq!(var, "x");
            assert_eq!(o, Operation::DivideVar);
            assert_eq!(ex, vec![num(4.0)]);
        }
        other => panic!("{:?}", other),
    }
    match classify("x =") {
        Ok(LineType::VarOperate(var, o, ex)) => {
            assert_eq!(var, "x");
            assert_eq!(o, Operation::Assign);
            assert_eq!(ex, vec![]);
        }
        other => panic!("{:?}", other),
    }
    match classify("x = 5 : y") {
        Ok(LineType::VarOperate(_, _, ex)) => assert_eq!(ex, vec![num(5.0), Token::Colon, name("y")]),
        other => panic!("{:?}", other),
    }
}

#[test]
fn conditionals_split_at_the_first_comparison_and_colon() {
    match classify("if x+1 >= (3): y=1: z: : w += 2") {
        Ok(LineType::If(a, c, b, body)) => {
            assert_eq!(a, vec![name("x"), op(Operator::Plus), num(1.0)]);
            assert_eq!(c, Compare::GreaterThanOrEqual);
            assert_eq!(b, vec![num(3.0)]);
            assert_eq!(
                body,
                vec![
                    vec![name("y"), Token::Operation(Operation::Assign), num(1.0)],
                    vec![name("z")],
                    vec![name("w"), Token::Operation(Operation::AddVar), num(2.0)],
                ]
            );
        }
        other => panic!("{:?}", other),
    }
    match classify("if a < b > c: x") {
        Ok(LineType::If(a, c, b, body)) => {
            assert_eq!(a, vec![name("a")]);
            assert_eq!(c, Compare::LessThan);
            assert_eq!(b, vec![name("b"), Token::Compare(Compare::GreaterThan), name("c")]);
            assert_eq!(body, vec![vec![name("x")]]);
        }
        other => panic!("{:?}", other),
    }
    match classify("if 1 == 1:") {
        Ok(LineType::If(_, c, _, body)) => {
            assert_eq!(c, Compare::Equal);
            assert_eq!(body, Vec::<Vec<Token>>::new());
        }
        other => panic!("{:?}", other),
    }
}

#[test]
fn loops_have_the_shape_of_conditionals() {
    for line in ["while x<3: x+=1", "wl x<3: x+=1", "del x<3: x+=1"] {
        match classify(line) {
            Ok(LineType::While(a, c, b, body)) => {
                assert_eq!(a, vec![name("x")]);
                assert_eq!(c, Compare::LessThan);
                assert_eq!(b, vec![num(3.0)]);
                assert_eq!(
                    body,
                    vec![vec![name("x"), Token::Operation(Operation::AddVar), num(1.0)]]
                );
            }
            other => panic!("{:?}", other),
        }
    }
}

#[test]
fn malformed_conditionals_are_refused() {
    assert!(matches!(classify("if x: y=1"), Err(CoreError::NoComparator)));
    assert!(matches!(classify("if"), Err(CoreError::NoComparator)));
    assert!(matches!(classify("while x 3"), Err(CoreError::NoComparator)));
    assert!(matches!(classify("if x > 3"), Err(CoreError::NoConsequence)));
    assert!(matches!(classify("if x : > 3"), Err(CoreError::NoConsequence)));
    assert!(matches!(classify("while x > 3 y"), Err(CoreError::NoConsequence)));
    assert!(matches!(classify("if (x > 3: y"), Err(CoreError::Parenthesis)));
    assert!(matches!(classify("while x > 3): y"), Err(CoreError::Parenthesis)));
    assert!(matches!(classify("if (x > 3): y"), Err(CoreError::NoComparator)));
    assert_eq!(CoreError::NoComparator.kind(), ErrorKind::Classify);
    assert_eq!(CoreError::NoConsequence.kind(), ErrorKind::Classify);
}

#[test]
fn a_group_alone_is_what_it_holds() {
    let line = vec![Token::Paren(vec![Token::Paren(vec![
        name("x"),
        Token::Operation(Operation::Assign),
        num(1.0),
    ])])];
    assert!(matches!(construct_line_type(line), Ok(LineType::VarOperate(_, _, _))));
    let two = vec![Token::Paren(vec![name("x")]), name("y")];
    assert!(matches!(construct_line_type(two), Ok(LineType::Nothing)));
    assert!(matches!(construct_line_type(vec![Token::Paren(vec![])]), Ok(LineType::Nothing)));
}

#[test]
fn other_lines_are_nothing() {
    assert!(matches!(classify("2+3"), Ok(LineType::Nothing)));
    assert!(matches!(classify("= 3"), Ok(LineType::Nothing)));
    assert!(matches!(classify("(2"), Ok(LineType::Nothing)));
    assert!(matches!(classify(": x"), Ok(LineType::Nothing)));
}

#[test]
fn clone_line_copies_a_statement() {
    let line = classify("while x<3: x+=1: y").unwrap();
    let copy = clone_line(&line);
    assert_eq!(format!("{:?}", copy), format!("{:?}", line));
    let print = classify("a: b").unwrap();
    assert_eq!(format!("{:?}", clone_line(&print)), format!("{:?}", print));
}

#[test]
fn memory_maps_names_to_values() {
    let mut memory = Memory::new();
    assert_eq!(memory.len(), 0);
    assert_eq!(memory.get("x"), None);
    memory.insert("x".to_string(), 1);
    memory.insert("y".to_string(), 2);
    assert_eq!(memory.get("x"), Some(1));
    assert_eq!(memory.get("y"), Some(2));
    memory.insert("x".to_string(), 3);
    assert_eq!(memory.get("x"), Some(3));
    assert_eq!(memory.get("y"), Some(2));
    assert_eq!(memory.len(), 2);
    assert_eq!(memory.entry(0), ("x".to_string(), 3));
    assert_eq!(memory.entry(1), ("y".to_string(), 2));
    assert_eq!(memory.get(""), None);
    assert_eq!(memory.get("xy"), None);
}

#[test]
fn get_from_mem_reads_or_fails() {
    let memory = store(&[("x", 5.0)]);
    assert_eq!(get_from_mem(&memory, "x".to_string()), Ok(5.0f64.to_bits()));
    assert_eq!(
        get_from_mem(&memory, "y".to_string()),
        Err(CoreError::UnknownVariable("y".to_string()))
    );
    assert_eq!(
        CoreError::UnknownVariable("y".to_string()).kind(),
        ErrorKind::UnknownVariable
    );
}

#[test]
fn replace_var_resolves_names_in_groups_too() {
    let memory = store(&[("x", 5.0), ("y", 7.0)]);
    let tokens = vec![
        name("x"),
        op(Operator::Plus),
        Token::Paren(vec![name("y"), Token::Paren(vec![name("x")])]),
    ];
    assert_eq!(
        replace_var(&memory, &tokens),
        Ok(vec![
            num(5.0),
            op(Operator::Plus),
            Token::Paren(vec![num(7.0), Token::Paren(vec![num(5.0)])]),
        ])
    );
    let missing = vec![name("x"), Token::Paren(vec![name("a")]), name("b")];
    assert_eq!(
        replace_var(&memory, &missing),
        Err(CoreError::UnknownVariable("a".to_string()))
    );
    assert_eq!(replace_var(&memory, &vec![]), Ok(vec![]));
}

#[test]
fn result_evaluates_against_the_store() {
    let memory = store(&[("x", 5.0)]);
    assert_eq!(finish(result(&memory, &tokens_of("2x+1"))), Ok(11.0));
    assert_eq!(
        finish(result(&memory, &tokens_of("y+1"))),
        Err(CoreError::UnknownVariable("y".to_string()))
    );
    assert_eq!(
        finish(result(&memory, &tokens_of("(1+y"))),
        Err(CoreError::UnknownVariable("y".to_string()))
    );
}

#[test]
fn assignment_round_trip() {
    let mut memory = Memory::new();
    assert_eq!(exec("x=5", &mut memory).end, Ok(LineResult::Nothing));
    assert_eq!(output("x", &mut memory), "5");
    assert_eq!(exec("x+=2", &mut memory).end, Ok(LineResult::Nothing));
    assert_eq!(output("x", &mut memory), "7");
    assert_eq!(
        exec("y+=1", &mut memory).end,
        Err(CoreError::UnknownVariable("y".to_string()))
    );
    assert_eq!(memory.get("y"), None);
}

#[test]
fn compound_assignments_combine_with_the_old_value() {
    let mut memory = store(&[("x", 12.0)]);
    exec("x -= 2", &mut memory);
    assert_eq!(value_of(&memory, "x"), Some(10.0));
    exec("x *= 3", &mut memory);
    assert_eq!(value_of(&memory, "x"), Some(30.0));
    exec("x /= 4", &mut memory);
    assert_eq!(value_of(&memory, "x"), Some(7.5));
    exec("x += x*2", &mut memory);
    assert_eq!(value_of(&memory, "x"), Some(22.5));
    assert_eq!(exec("x /= 0", &mut memory).end, Ok(LineResult::Nothing));
    assert_eq!(value_of(&memory, "x"), Some(f64::INFINITY));
}

#[test]
fn failed_assignments_leave_the_store() {
    let mut memory = store(&[("x", 1.0)]);
    assert_eq!(exec("x = 1/0", &mut memory).end, Err(CoreError::DivisionByZero));
    assert_eq!(exec("x = y", &mut memory).end, Err(CoreError::UnknownVariable("y".to_string())));
    assert_eq!(exec("x = (2", &mut memory).end, Err(CoreError::Parenthesis));
    assert_eq!(exec("x =", &mut memory).end, Err(CoreError::Malformed));
    assert_eq!(exec("x += 1/0", &mut memory).end, Err(CoreError::DivisionByZero));
    assert_eq!(value_of(&memory, "x"), Some(1.0));
    assert_eq!(memory.len(), 1);
}

#[test]
fn printing_joins_values_with_colons() {
    let mut memory = store(&[("a", 1.0), ("b", 2.5), ("c", -3.0)]);
    assert_eq!(output("a: b: c", &mut memory), "1:2.5:-3");
    assert_eq!(output("b", &mut memory), "2.5");
    assert_eq!(
        exec("a: z: b", &mut memory).end,
        Err(CoreError::UnknownVariable("z".to_string()))
    );
    assert_eq!(exec("z", &mut memory).end, Err(CoreError::UnknownVariable("z".to_string())));
}

#[test]
fn conditional_runs_its_body_when_it_holds() {
    let mut memory = store(&[("x", 5.0)]);
    assert_eq!(exec("if x>3: y=1", &mut memory).end, Ok(LineResult::Nothing));
    assert_eq!(output("y", &mut memory), "1");
    let mut memory = store(&[("x", 1.0)]);
    assert_eq!(exec("if x>3: y=1", &mut memory).end, Ok(LineResult::Nothing));
    assert_eq!(exec("y", &mut memory).end, Err(CoreError::UnknownVariable("y".to_string())));
}

#[test]
fn loop_runs_until_its_condition_fails() {
    let mut memory = store(&[("x", 0.0)]);
    assert_eq!(exec("while x<3: x+=1", &mut memory).end, Ok(LineResult::Nothing));
    assert_eq!(output("x", &mut memory), "3");
}

#[test]
fn loop_body_is_classified_once() {
    let mut memory = store(&[("x", 0.0)]);
    let session = run(classify("while x<3: x+=1").unwrap());
    let (mut session, request) = session.resume(&mut memory);
    assert_eq!(request, Request::Continue);
    let mut rounds = 0;
    let mut condition_checks = 0;
    loop {
        match session.frames.last() {
            Some(Frame::Left(guard, _)) => match &guard.body {
                Body::Repeat(ready) => {
                    assert_eq!(ready.len(), 1);
                    assert!(matches!(ready[0], LineType::VarOperate(_, Operation::AddVar, _)));
                    condition_checks += 1;
                }
                Body::Once(_) => panic!("a loop holds its lines classified"),
            },
            Some(Frame::Start(_)) => rounds += 1,
            _ => {}
        }
        let (next, request) = session.resume(&mut memory);
        session = next;
        match request {
            Request::Compute(c) => session = session.supply(Reply::Number(compute(c))),
            Request::Finished(end) => {
                assert_eq!(end, Ok(LineResult::Nothing));
                break;
            }
            _ => {}
        }
    }
    assert_eq!(rounds, 3);
    assert!(condition_checks >= 4);
    assert_eq!(value_of(&memory, "x"), Some(3.0));
}

#[test]
fn bodies_show_output_and_report_failures() {
    let mut memory = store(&[("x", 5.0)]);
    let ran = exec("if x==5: x: y: x+=1: x: z = 1/0: x", &mut memory);
    assert_eq!(ran.end, Ok(LineResult::Nothing));
    assert_eq!(ran.shown, vec!["5".to_string(), "6".to_string(), "6".to_string()]);
    assert_eq!(
        ran.reported,
        vec![CoreError::UnknownVariable("y".to_string()), CoreError::DivisionByZero]
    );
    assert_eq!(value_of(&memory, "x"), Some(6.0));
}

#[test]
fn loops_go_on_behind_a_failing_line() {
    let mut memory = store(&[("x", 0.0)]);
    let ran = exec("while x<2: nope: x+=1", &mut memory);
    assert_eq!(ran.end, Ok(LineResult::Nothing));
    assert_eq!(
        ran.reported,
        vec![
            CoreError::UnknownVariable("nope".to_string()),
            CoreError::UnknownVariable("nope".to_string())
        ]
    );
    assert_eq!(value_of(&memory, "x"), Some(2.0));
}

#[test]
fn conditions_fail_the_statement() {
    let mut memory = store(&[("x", 0.0)]);
    assert_eq!(
        exec("if y>1: x=1", &mut memory).end,
        Err(CoreError::UnknownVariable("y".to_string()))
    );
    assert_eq!(exec("if x>1/0: x=1", &mut memory).end, Err(CoreError::DivisionByZero));
    assert_eq!(
        exec("while x<y: x+=1", &mut memory).end,
        Err(CoreError::UnknownVariable("y".to_string()))
    );
    assert_eq!(exec("if 1/0 > y: x=1", &mut memory).end, Err(CoreError::DivisionByZero));
    assert_eq!(value_of(&memory, "x"), Some(0.0));
}

#[test]
fn nested_statements_run_inside_groups() {
    let mut memory = store(&[("i", 0.0), ("n", 0.0)]);
    let ran = exec("while i<3: j=0: (while j<2: j+=1: n+=1): i+=1", &mut memory);
    assert_eq!(ran.end, Ok(LineResult::Nothing));
    assert_eq!(value_of(&memory, "n"), Some(6.0));
    assert_eq!(value_of(&memory, "i"), Some(3.0));
    let mut memory = store(&[("x", 5.0)]);
    let ran = exec("if x>1: (if x>2: x: y=2)", &mut memory);
    assert_eq!(ran.shown, vec!["5".to_string()]);
    assert_eq!(value_of(&memory, "y"), Some(2.0));
}

#[test]
fn malformed_body_lines_are_skipped_or_end_the_loop() {
    let mut memory = store(&[("x", 5.0)]);
    let ran = exec("if x>1: x=6: (if x: x=7): x=8", &mut memory);
    assert_eq!(ran.end, Ok(LineResult::Nothing));
    assert_eq!(ran.reported, vec![CoreError::NoComparator]);
    assert_eq!(value_of(&memory, "x"), Some(8.0));
    let mut memory = store(&[("x", 5.0)]);
    let ran = exec("while x>1: x=0: (if x: x=7)", &mut memory);
    assert_eq!(ran.end, Err(CoreError::NoComparator));
    assert_eq!(value_of(&memory, "x"), Some(5.0));
}

#[test]
fn lines_fail_as_the_lexer_and_classifier_do() {
    let mut memory = Memory::new();
    assert_eq!(exec("x = 1.2.3", &mut memory).end, Err(CoreError::TwoPoints));
    assert_eq!(exec("x = #", &mut memory).end, Err(CoreError::IncorrectChar('#')));
    assert_eq!(exec("if x: y", &mut memory).end, Err(CoreError::NoComparator));
    assert_eq!(exec("if 1 < 2", &mut memory).end, Err(CoreError::NoConsequence));
    assert_eq!(exec("", &mut memory).end, Ok(LineResult::Nothing));
    assert_eq!(exec("2+3", &mut memory).end, Ok(LineResult::Nothing));
    assert_eq!(memory.len(), 0);
}

#[test]
fn a_line_that_has_ended_says_so_again() {
    let mut memory = Memory::new();
    let mut session = run_line("x = 2");
    loop {
        let (next, request) = session.resume(&mut memory);
        session = next;
        match request {
            Request::Parse(texts) => {
                assert_eq!(texts, vec!["2".to_string()]);
                let (same, again) = session.resume(&mut memory);
                assert_eq!(again, Request::Parse(vec!["2".to_string()]));
                session = same.supply(Reply::Text("no".to_string()));
                session = session.supply(Reply::Numbers(vec![]));
                session = session.supply(Reply::Numbers(vec![2.0f64.to_bits()]));
            }
            Request::Finished(end) => {
                assert_eq!(end, Ok(LineResult::Nothing));
                break;
            }
            _ => {}
        }
    }
    let (session, again) = session.resume(&mut memory);
    assert_eq!(again, Request::Finished(Ok(LineResult::Nothing)));
    let session = session.supply(Reply::Number(1));
    let (_, third) = session.resume(&mut memory);
    assert_eq!(third, Request::Finished(Ok(LineResult::Nothing)));
    assert_eq!(value_of(&memory, "x"), Some(2.0));
}

#[test]
fn replies_that_nothing_waits_for_change_nothing() {
    let mut memory = store(&[("x", 4.0)]);
    let session = run(classify("x += 1+1").unwrap());
    let (session, _) = session.resume(&mut memory);
    let (session, request) = session.resume(&mut memory);
    let c = match request {
        Request::Compute(c) => c,
        other => panic!("{:?}", other),
    };
    let session = session.supply(Reply::Text("2".to_string()));
    let (session, again) = session.resume(&mut memory);
    assert_eq!(again, Request::Compute(c));
    let session = session.supply(Reply::Number(compute(c)));
    let ran = drive(session, &mut memory);
    assert_eq!(ran.end, Ok(LineResult::Nothing));
    assert_eq!(value_of(&memory, "x"), Some(6.0));
}

#[test]
fn an_empty_loop_body_still_moves() {
    let mut memory = store(&[("x", 0.0)]);
    let mut session = run_line("while x<1:");
    for _ in 0..1000 {
        let (next, request) = session.resume(&mut memory);
        session = next;
        match request {
            Request::Parse(texts) => {
                let values = texts.iter().map(|t| t.parse::<f64>().unwrap().to_bits()).collect();
                session = session.supply(Reply::Numbers(values));
            }
            Request::Finished(_) => panic!("the loop cannot end"),
            _ => {}
        }
    }
    assert_eq!(value_of(&memory, "x"), Some(0.0));
}

#[test]
fn collapsing_twice_is_collapsing_once() {
    for line in ["((((2))))", "((2+3))*(((4)))", "(a)((b)(c))", "()", "((()))"] {
        let once = post_process_paren(tokens_of(line)).unwrap();
        let twice = post_process_paren(post_process_paren(tokens_of(line)).unwrap()).unwrap();
        assert_eq!(once, twice, "{}", line);
    }
}

fn unfold(tokens: &[Token]) -> Vec<Token> {
    let mut out = Vec::new();
    for t in tokens {
        match t {
            Token::Paren(inner) => {
                out.push(Token::ParenOpen);
                out.extend(unfold(inner));
                out.push(Token::ParenClose);
            }
            other => out.push(other.clone()),
        }
    }
    out
}

#[test]
fn unfolding_undoes_folding() {
    for line in ["a*(b+(c-d))/(f)", "()", "(()())", "1+2", ""] {
        let tokens = tokens_of(line);
        let mut depth = 0;
        let mut groups = Vec::new();
        let mut stack: Vec<Vec<Token>> = vec![Vec::new()];
        for t in &tokens {
            match t {
                Token::ParenOpen => {
                    depth += 1;
                    stack.push(Vec::new());
                }
                Token::ParenClose => {
                    depth -= 1;
                    let inner = stack.pop().unwrap();
                    groups.push(inner.len());
                    stack.last_mut().unwrap().push(Token::Paren(inner));
                }
                other => stack.last_mut().unwrap().push(other.clone()),
            }
        }
        assert_eq!(depth, 0);
        let folded = stack.pop().unwrap();
        assert_eq!(unfold(&folded), tokens, "{}", line);
        if groups.iter().all(|n| *n != 1) {
            assert_eq!(post_process_paren(tokens_of(line)), Ok(folded), "{}", line);
        }
    }
}

#[test]
fn replaced_tokens_hold_no_name() {
    fn holds_name(tokens: &[Token]) -> bool {
        tokens.iter().any(|t| match t {
            Token::Name(_) => true,
            Token::Paren(inner) => holds_name(inner),
            _ => false,
        })
    }
    let memory = store(&[("x", 1.0), ("y", 2.0)]);
    let tokens = post_process_paren(tokens_of("x*(y+(x-y))x")).unwrap();
    assert!(holds_name(&tokens));
    assert!(!holds_name(&replace_var(&memory, &tokens).unwrap()));
}

#[test]
fn the_store_lists_each_name_once() {
    let mut memory = Memory::new();
    for line in ["a=1", "b=2", "a=3", "b+=a", "c=a*b"] {
        exec(line, &mut memory);
    }
    assert_eq!(memory.len(), 3);
    let mut names = Vec::new();
    for i in 0..memory.len() {
        let (name, bits) = memory.entry(i);
        assert_eq!(memory.get(&name), Some(bits));
        assert!(!names.contains(&name));
        names.push(name);
    }
    assert_eq!(names, vec!["a".to_string(), "b".to_string(), "c".to_string()]);
    assert_eq!(value_of(&memory, "c"), Some(15.0));
}

#[test]
fn failures_have_messages() {
    assert_eq!(CoreError::IncorrectChar('$').message(), "Incorrect char: $");
    assert_eq!(CoreError::TwoPoints.message(), "Number with two points is not possible");
    assert_eq!(CoreError::Parenthesis.message(), "Mismatched parenthesis");
    assert_eq!(CoreError::NoComparator.message(), "No comparator in statement");
    assert_eq!(CoreError::NoConsequence.message(), "No consequence to statement");
    assert_eq!(
        CoreError::UnknownVariable("y".to_string()).message(),
        "Var [y] not found in memory"
    );
    assert_eq!(CoreError::DivisionByZero.message(), "Division by zero");
    assert_eq!(
        CoreError::Unsupported(Operator::Factorial).message(),
        "Factorials not supported for now"
    );
    assert_eq!(CoreError::Unsupported(Operator::Absent).message(), "Operator not supported");
    assert_eq!(CoreError::Malformed.message(), "Invalid token in calculation");
    let copy = CoreError::UnknownVariable("y".to_string()).duplicate();
    assert_eq!(copy, CoreError::UnknownVariable("y".to_string()));
}

#[test]
fn moves_are_counted() {
    let mut memory = store(&[("x", 0.0)]);
    let ran = exec("x = 1", &mut memory);
    assert!(ran.moves >= 3);
}
