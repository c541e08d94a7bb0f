use hulk::error::CompilerError;
use hulk::lexer::{build_lexer, escape_regex_literal, patterns_ok, Lexer};
use hulk::token::Token;
use hulk::dfa::Dfa;
use hulk::nfa::{Edge, Nfa, NfaState};
use hulk::regex_ast::{insert_explicit_concat, RegexAST, RegexParser};
use hulk::utils::{epsilon_closure, move_states};
use std::collections::HashSet;

fn language_patterns() -> Vec<(&'static str, &'static str)> {
    vec![
        ("Let", "let"),
        ("In", "in"),
        ("If", "if"),
        ("Else", "else"),
        ("Elif", "elif"),
        ("While", "while"),
        ("For", "for"),
        ("Function", "function"),
        ("Print", "print"),
        ("True", "true"),
        ("False", "false"),
        ("Pi", "PI"),
        ("E", "E"),
        ("Sin", "sin"),
        ("Cos", "cos"),
        ("Tan", "tan"),
        ("Sqrt", "sqrt"),
        ("Log", "log"),
        ("Exp", "exp"),
        ("Rand", "rand"),
        ("Arrow", "=>"),
        ("Eq", "="),
        ("Assign", ":="),
        ("EqEq", "=="),
        ("Neq", "!="),
        ("Leq", "<="),
        ("Geq", ">="),
        ("Lt", "<"),
        ("Gt", ">"),
        ("And", "&"),
        ("Or", "|"),
        ("Not", "!"),
        ("Plus", "+"),
        ("Minus", "-"),
        ("Mult", "*"),
        ("Div", "/"),
        ("Percent", "%"),
        ("Power", "^"),
        ("LParen", "("),
        ("RParen", ")"),
        ("LBrace", "{"),
        ("RBrace", "}"),
        ("Comma", ","),
        ("Semicolon", ";"),
        ("COLON", ":"),
    ]
}

fn lexer() -> Lexer {
    let patterns = language_patterns();
    assert!(patterns_ok(&patterns));
    build_lexer(patterns)
}

fn describe(tokens: &[(usize, Token, usize)]) -> Vec<String> {
    tokens.iter().map(|(s, t, e)| format!("{}:{:?}:{}", s, t, e)).collect()
}

#[test]
fn escape_regex_literal_escapes_operators() {
    assert_eq!(escape_regex_literal("a+b"), "a\\+b");
    assert_eq!(escape_regex_literal("(x)"), "\\(x\\)");
    assert_eq!(escape_regex_literal("|*.?\\[]{}"), "\\|\\*\\.\\?\\\\\\[\\]\\{\\}");
}

#[test]
fn escape_regex_literal_keeps_plain_text() {
    assert_eq!(escape_regex_literal("let"), "let");
    assert_eq!(escape_regex_literal(""), "");
    assert_eq!(escape_regex_literal(":="), ":=");
}

#[test]
fn patterns_ok_rejects_unbalanced_regex() {
    let bad = vec![("Number", "(1")];
    assert!(!patterns_ok(&bad));
    let good = vec![("Plus", "+")];
    assert!(patterns_ok(&good));
}

#[test]
fn tokenize_let_expression() {
    let lx = lexer();
    let tokens = lx.tokenize("let x = 42 in print(x);").unwrap();
    assert_eq!(
        describe(&tokens),
        vec![
            "0:Let:3",
            "4:Identifier(\"x\"):5",
            "6:Eq:7",
            "8:Number(\"42\"):10",
            "11:In:13",
            "14:Identifier(\"print\"):19",
            "19:LParen:20",
            "20:Identifier(\"x\"):21",
            "21:RParen:22",
            "22:Semicolon:23",
        ]
    );
}

#[test]
fn tokenize_strings_comments_and_decimals() {
    let lx = lexer();
    let tokens = lx.tokenize("\"a\\n\" // c\n1.5").unwrap();
    assert_eq!(describe(&tokens), vec!["0:Str(\"a\\n\"):5", "11:Number(\"1.5\"):14"]);
}

#[test]
fn tokenize_number_without_fraction_digits() {
    let lx = lexer();
    let tokens = lx.tokenize("3.x").unwrap();
    assert_eq!(describe(&tokens), vec!["0:Number(\"3\"):1", "1:Dot:2", "2:Identifier(\"x\"):3"]);
}

#[test]
fn tokenize_longest_operators() {
    let lx = lexer();
    let tokens = lx.tokenize("a := b <= c == d => e @@ f @ g").unwrap();
    let kinds: Vec<String> = tokens.iter().map(|(_, t, _)| format!("{:?}", t)).collect();
    assert_eq!(
        kinds,
        vec![
            "Identifier(\"a\")",
            "Assign",
            "Identifier(\"b\")",
            "Leq",
            "Identifier(\"c\")",
            "EqEq",
            "Identifier(\"d\")",
            "Arrow",
            "Identifier(\"e\")",
            "ConcatSpace",
            "Identifier(\"f\")",
            "Concat",
            "Identifier(\"g\")",
        ]
    );
}

#[test]
fn tokenize_keywords_of_the_identifier_rule() {
    let lx = lexer();
    let tokens = lx.tokenize("type A inherits B { } new protocol extends Number String Boolean Object").unwrap();
    let kinds: Vec<String> = tokens.iter().map(|(_, t, _)| format!("{:?}", t)).collect();
    assert_eq!(
        kinds,
        vec![
            "Type",
            "Identifier(\"A\")",
            "Inherits",
            "Identifier(\"B\")",
            "LBrace",
            "RBrace",
            "New",
            "Protocol",
            "Extends",
            "NumberType",
            "StringType",
            "BooleanType",
            "ObjectType",
        ]
    );
}

#[test]
fn tokenize_rejects_unknown_character() {
    let lx = lexer();
    match lx.tokenize("1 # 2") {
        Err(CompilerError::LexerError { msg, span }) => {
            assert_eq!(msg, "Carácter no reconocido: '#'");
            assert_eq!((span.start, span.end), (2, 3));
        },
        other => panic!("unexpected result: {:?}", other),
    }
}

#[test]
fn tokenize_rejects_unclosed_string() {
    let lx = lexer();
    match lx.tokenize("\"abc") {
        Err(CompilerError::LexerError { msg, span }) => {
            assert_eq!(msg, "Unclosed string literal");
            assert_eq!((span.start, span.end), (0, 4));
        },
        other => panic!("unexpected result: {:?}", other),
    }
}

#[test]
fn tokenize_rejects_invalid_escape() {
    let lx = lexer();
    match lx.tokenize("\"\\q\"") {
        Err(CompilerError::LexerError { msg, span }) => {
            assert_eq!(msg, "Invalid escape sequence: '\\q'");
            assert_eq!((span.start, span.end), (1, 3));
        },
        other => panic!("unexpected result: {:?}", other),
    }
}

#[test]
fn tokenize_empty_and_blank_input() {
    let lx = lexer();
    assert!(lx.tokenize("").unwrap().is_empty());
    assert!(lx.tokenize("  \n\t // only a comment").unwrap().is_empty());
}

#[test]
fn subset_construction_follows_the_nfa() {
    let regex = insert_explicit_concat("ab|a");
    let ast = RegexParser::new(&regex).parse();
    let mut states: Vec<NfaState> = Vec::new();
    let (start, end) = Nfa::build_from_ast(&ast, &mut states);
    states[end].is_accept = true;
    let nfa = Nfa { states, start, end };
    let dfa = Dfa::from_nfa(&nfa, &vec!['a', 'b'], &vec![(end, "AB".to_string())]);

    let mut set: HashSet<usize> = HashSet::new();
    set.insert(start);
    let mut current = epsilon_closure(&set, &nfa);
    assert_eq!(dfa.states[0], current);
    let mut state = 0usize;
    for c in ['a', 'b'] {
        current = epsilon_closure(&move_states(&current, c, &nfa), &nfa);
        state = dfa.transition(state, c).expect("the automaton moves");
        assert_eq!(dfa.states[state], current);
        assert!(dfa.accept_states.contains_key(&state));
    }
    assert!(dfa.transition(state, 'a').is_none());
    assert!(epsilon_closure(&move_states(&current, 'a', &nfa), &nfa).is_empty());
}

#[test]
fn thompson_construction_of_a_star() {
    let ast = RegexParser::new("a*").parse();
    let mut states: Vec<NfaState> = vec![NfaState { edges: vec![], is_accept: false }];
    let (start, end) = Nfa::build_from_ast(&ast, &mut states);
    assert_eq!((start, end), (1, 4));
    assert_eq!(states.len(), 5);
    assert_eq!(states[1].edges, vec![Edge::Epsilon(2), Edge::Epsilon(4)]);
    assert_eq!(states[2].edges, vec![Edge::Symbol('a', 3)]);
    assert_eq!(states[3].edges, vec![Edge::Epsilon(2), Edge::Epsilon(4)]);
    assert!(states[4].edges.is_empty());
    assert!(states[0].edges.is_empty());
}

#[test]
fn escaped_operator_concatenates_with_its_neighbours() {
    assert_eq!(insert_explicit_concat("a\\+b"), "a.\\+.b");
    let ast = RegexParser::new("a\\+").parse();
    match ast {
        RegexAST::Concat(l, r) => {
            assert!(matches!(*l, RegexAST::Literal('a')));
            assert!(matches!(*r, RegexAST::Literal('+')));
        },
        other => panic!("unexpected tree: {:?}", other),
    }
    assert!(!patterns_ok(&vec![("Number", "a)")]));
}

#[test]
fn subset_construction_of_a_two_state_automaton_is_exact() {
    let nfa = Nfa {
        states: vec![
            NfaState { edges: vec![Edge::Symbol('a', 1)], is_accept: false },
            NfaState { edges: vec![], is_accept: true },
        ],
        start: 0,
        end: 1,
    };
    let dfa = Dfa::from_nfa(&nfa, &vec!['a', 'b'], &vec![(1, "A".to_string()), (7, "Z".to_string())]);
    assert_eq!(dfa.states.len(), 2);
    assert_eq!(dfa.states[0], HashSet::from([0]));
    assert_eq!(dfa.states[1], HashSet::from([1]));
    assert_eq!(dfa.transition(0, 'a'), Some(1));
    assert_eq!(dfa.transition(0, 'b'), None);
    assert_eq!(dfa.transition(1, 'a'), None);
    assert_eq!(dfa.accept_states.get(&1), Some(&"A".to_string()));
    assert!(!dfa.accept_states.contains_key(&0));
}

#[test]
fn literal_patterns_label_their_transitions() {
    let lx = build_lexer(vec![("Plus", "+"), ("Mult", "*")]);
    let p = lx.dfa.transition(0, '+').expect("a transition on '+'");
    let m = lx.dfa.transition(0, '*').expect("a transition on '*'");
    assert_eq!(lx.dfa.accept_states.get(&p), Some(&"Plus".to_string()));
    assert_eq!(lx.dfa.accept_states.get(&m), Some(&"Mult".to_string()));
    assert!(lx.dfa.transition(p, '+').is_none() && lx.dfa.transition(p, '*').is_none());
    assert!(lx.dfa.transition(m, '+').is_none() && lx.dfa.transition(m, '*').is_none());
    assert!(!lx.dfa.accept_states.contains_key(&0));
}
