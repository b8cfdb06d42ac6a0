use mccs::input::SourceFile;
use mccs::lexer::Lexer;
use mccs::parser::{elems_to_string, ParseError, Parser};
use mccs::sources::Sources;
use mccs::tokens::{Scope, Token, Word};

fn chars(s: &str) -> Vec<char> {
    s.chars().collect()
}

fn parser_for(src: &str) -> Parser {
    let sf = SourceFile::new("test.mccs".to_string(), chars(src));
    let mut lx = Lexer::new(sf);
    lx.lex().ok().expect("tokenization should succeed");
    Parser::new(lx.tokens)
}

fn parse_err(src: &str) -> ParseError {
    let mut p = parser_for(src);
    match p.parse() {
        Ok(()) => panic!("parsing should fail"),
        Err(e) => e,
    }
}

fn word_value(t: &Token) -> &str {
    match t {
        Token::Word(w) => w.value.as_str(),
        _ => panic!("expected a word"),
    }
}

#[test]
fn a_function_with_a_datapack_declared_beforehand_parses() {
    let mut p = parser_for("datapack dp\nfn main { out 1 }\n");
    p.parse().ok().expect("parsing should succeed");
    assert_eq!(p.datapack_name_decl.as_ref().expect("datapack is declared").value, "dp");
    assert_eq!(p.parsed_functions.len(), 1);
    let f = &p.parsed_functions[0];
    assert_eq!(f.name.value, "main");
    assert_eq!(f.name.scope.start, 15);
    assert_eq!(f.name.scope.end, 19);
    assert!(f.mods.is_empty());
    assert_eq!(f.block.tokens.len(), 2);
    assert_eq!(word_value(&f.block.tokens[0]), "out");
    assert_eq!(word_value(&f.block.tokens[1]), "1");
}

#[test]
fn modifiers_attach_to_the_next_function_and_are_then_cleared() {
    let mut p = parser_for("datapack dp\ninline hidden fn a { }\nfn b { }\n");
    p.parse().ok().expect("parsing should succeed");
    assert_eq!(p.parsed_functions.len(), 2);
    let a = &p.parsed_functions[0];
    assert_eq!(a.name.value, "a");
    assert_eq!(a.mods.len(), 2);
    assert_eq!(a.mods[0].value, "inline");
    assert_eq!(a.mods[1].value, "hidden");
    let b = &p.parsed_functions[1];
    assert_eq!(b.name.value, "b");
    assert!(b.mods.is_empty());
}

#[test]
fn a_function_before_any_datapack_is_rejected() {
    match parse_err("fn f { }\n") {
        ParseError::MissingDatapackDeclaration { token } => {
            assert_eq!(word_value(&token), "fn");
        }
        _ => panic!("expected a missing datapack declaration"),
    }
}

#[test]
fn a_datapack_name_must_be_an_identifier() {
    match parse_err("datapack ;\n") {
        ParseError::ExpectedIdentifier { token } => match token {
            Token::Symbol(s) => assert_eq!(s.value, ';'),
            _ => panic!("the offending token is the symbol"),
        },
        _ => panic!("expected an identifier error"),
    }
}

#[test]
fn a_datapack_declaration_must_end_its_line() {
    match parse_err("datapack dp fn\n") {
        ParseError::ExpectedEndOfLine { token } => {
            assert_eq!(word_value(&token), "fn");
        }
        _ => panic!("expected an end-of-line error"),
    }
}

#[test]
fn a_function_name_must_be_followed_by_a_block() {
    match parse_err("datapack dp\nfn f ;\n") {
        ParseError::ExpectedBlock { token } => match token {
            Token::Symbol(s) => assert_eq!(s.value, ';'),
            _ => panic!("the offending token is the symbol"),
        },
        _ => panic!("expected a block error"),
    }
}

#[test]
fn an_unknown_word_is_no_item_declaration() {
    match parse_err("datapack dp\nbogus\n") {
        ParseError::ExpectedItemDeclaration { token } => {
            assert_eq!(word_value(&token), "bogus");
        }
        _ => panic!("expected an item declaration error"),
    }
}

#[test]
fn a_stray_symbol_is_no_item_declaration() {
    match parse_err(";\n") {
        ParseError::ExpectedItemDeclaration { token } => match token {
            Token::Symbol(s) => assert_eq!(s.value, ';'),
            _ => panic!("the offending token is the symbol"),
        },
        _ => panic!("expected an item declaration error"),
    }
}

#[test]
fn a_declaration_cut_short_by_the_stream_end_is_rejected() {
    assert!(matches!(parse_err("datapack"), ParseError::UnexpectedEndOfInput));
}

#[test]
fn line_breaks_between_items_are_skipped() {
    let mut p = parser_for("\n\ndatapack dp\n\n\nfn f { }\n\n");
    p.parse().ok().expect("parsing should succeed");
    assert_eq!(p.parsed_functions.len(), 1);
}

fn word(v: &str) -> Word {
    Word {
        value: v.to_string(),
        scope: Scope { file: "test.mccs".to_string(), start: 0, end: v.len() },
    }
}

#[test]
fn elems_to_string_brackets_and_separates() {
    assert_eq!(elems_to_string(&Vec::new()), "[]");
    assert_eq!(elems_to_string(&vec![word("a")]), "[a]");
    assert_eq!(elems_to_string(&vec![word("a"), word("b"), word("c")]), "[a, b, c]");
}

#[test]
fn a_parsed_function_describes_itself() {
    let mut p = parser_for("datapack dp\ninline fn main { }\n");
    p.parse().ok().expect("parsing should succeed");
    assert_eq!(p.parsed_functions[0].describe(), "[inline] function main");
}

#[test]
fn the_registry_resolves_names_to_their_content() {
    let mut sources = Sources::new();
    sources.push_source("a.mccs".to_string(), chars("aa"));
    sources.push_source("b.mccs".to_string(), chars("bb"));
    let a = sources.source_by_name("a.mccs".to_string()).expect("a is registered");
    assert_eq!(a, &chars("aa"));
    let b = sources.source_by_name("b.mccs".to_string()).expect("b is registered");
    assert_eq!(b, &chars("bb"));
    assert!(sources.source_by_name("c.mccs".to_string()).is_none());
}

#[test]
fn a_source_file_hands_back_its_content() {
    let sf = SourceFile::new("x.mccs".to_string(), chars("xy"));
    assert_eq!(sf.path, "x.mccs");
    assert_eq!(sf.get_source(), &chars("xy"));
}
