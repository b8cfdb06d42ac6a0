use mccs::input::SourceFile;
use mccs::lexer::{is_sep_char, LexError, Lexer};
use mccs::tokens::Token;

fn chars(s: &str) -> Vec<char> {
    s.chars().collect()
}

fn lex_ok(src: &str) -> Vec<Token> {
    let sf = SourceFile::new("test.mccs".to_string(), chars(src));
    let mut lx = Lexer::new(sf);
    lx.lex().ok().expect("tokenization should succeed");
    lx.tokens
}

fn lex_err(src: &str) -> LexError {
    let sf = SourceFile::new("test.mccs".to_string(), chars(src));
    let mut lx = Lexer::new(sf);
    match lx.lex() {
        Ok(()) => panic!("tokenization should fail"),
        Err(e) => e,
    }
}

fn word_value(t: &Token) -> &str {
    match t {
        Token::Word(w) => w.value.as_str(),
        _ => panic!("expected a word"),
    }
}

#[test]
fn function_line_tokenizes_to_words_block_and_line_break() {
    let toks = lex_ok("fn main { out 1 }\n");
    assert_eq!(toks.len(), 4);
    assert_eq!(word_value(&toks[0]), "fn");
    assert_eq!(word_value(&toks[1]), "main");
    match &toks[2] {
        Token::Block(b) => {
            assert_eq!(b.opening.value, '{');
            assert_eq!(b.opening.scope.start, 8);
            assert_eq!(b.opening.scope.end, 9);
            assert_eq!(b.closing.value, '}');
            assert_eq!(b.closing.scope.start, 16);
            assert_eq!(b.tokens.len(), 2);
            assert_eq!(word_value(&b.tokens[0]), "out");
            assert_eq!(word_value(&b.tokens[1]), "1");
        }
        _ => panic!("expected a block"),
    }
    assert!(matches!(&toks[3], Token::LineBreak(_)));
}

#[test]
fn group_splits_on_commas_and_last_elem_has_no_separator() {
    let toks = lex_ok("(1,2,3)");
    assert_eq!(toks.len(), 1);
    match &toks[0] {
        Token::Group(g) => {
            assert_eq!(g.opening.value, '(');
            assert_eq!(g.closing.value, ')');
            assert_eq!(g.elems.len(), 3);
            let expected = ["1", "2", "3"];
            for (i, e) in g.elems.iter().enumerate() {
                assert_eq!(e.tokens.len(), 1);
                assert_eq!(word_value(&e.tokens[0]), expected[i]);
                if i < 2 {
                    let sep = e.sep.as_ref().expect("inner elements end in a comma");
                    assert_eq!(sep.value, ',');
                } else {
                    assert!(e.sep.is_none());
                }
            }
        }
        _ => panic!("expected a group"),
    }
}

#[test]
fn unterminated_block_is_anchored_at_the_opening_brace() {
    match lex_err("{ a") {
        LexError::UnterminatedNesting { opening, at } => {
            assert_eq!(opening.start, 0);
            assert_eq!(opening.end, 1);
            assert_eq!(opening.file, "test.mccs");
            // the cursor stopped right before the synthetic newline
            assert_eq!(at, 3);
        }
        _ => panic!("expected an unterminated nesting"),
    }
}

#[test]
fn unterminated_block_keeps_its_anchor_after_well_formed_content() {
    match lex_err("a b ; ( c )\nd {\ne f") {
        LexError::UnterminatedNesting { opening, at } => {
            assert_eq!(opening.start, 14);
            assert_eq!(opening.end, 15);
            assert_eq!(at, 19);
        }
        _ => panic!("expected an unterminated nesting"),
    }
}

#[test]
fn unterminated_outer_block_is_not_blamed_on_an_inner_matched_pair() {
    match lex_err("x { {y}") {
        LexError::UnterminatedNesting { opening, at } => {
            assert_eq!(opening.start, 2);
            assert_eq!(opening.end, 3);
            assert_eq!(at, 7);
        }
        _ => panic!("expected an unterminated nesting"),
    }
}

#[test]
fn unterminated_group_is_anchored_at_the_opening_paren() {
    match lex_err("(a, b") {
        LexError::UnterminatedNesting { opening, at } => {
            assert_eq!(opening.start, 0);
            assert_eq!(opening.end, 1);
            assert_eq!(at, 5);
        }
        _ => panic!("expected an unterminated nesting"),
    }
}

#[test]
fn rogue_closing_paren_aborts_at_offset_zero() {
    match lex_err(")") {
        LexError::RogueClosingDelimiter { symbol } => {
            assert_eq!(symbol.value, ')');
            assert_eq!(symbol.scope.start, 0);
            assert_eq!(symbol.scope.end, 1);
        }
        _ => panic!("expected a rogue closing delimiter"),
    }
}

#[test]
fn rogue_closing_brace_aborts_even_after_good_tokens() {
    match lex_err("a b\n} c") {
        LexError::RogueClosingDelimiter { symbol } => {
            assert_eq!(symbol.value, '}');
            assert_eq!(symbol.scope.start, 4);
        }
        _ => panic!("expected a rogue closing delimiter"),
    }
}

#[test]
fn empty_and_blank_inputs_produce_no_tokens() {
    assert_eq!(lex_ok("").len(), 0);
    assert_eq!(lex_ok("   ").len(), 0);
}

#[test]
fn separators_become_standalone_symbols() {
    let toks = lex_ok("a;b");
    assert_eq!(toks.len(), 3);
    assert_eq!(word_value(&toks[0]), "a");
    match &toks[1] {
        Token::Symbol(s) => {
            assert_eq!(s.value, ';');
            assert_eq!(s.scope.start, 1);
            assert_eq!(s.scope.end, 2);
        }
        _ => panic!("expected a symbol"),
    }
    assert_eq!(word_value(&toks[2]), "b");
}

#[test]
fn blocks_nest() {
    let toks = lex_ok("{ a { b } }");
    assert_eq!(toks.len(), 1);
    match &toks[0] {
        Token::Block(outer) => {
            assert_eq!(outer.tokens.len(), 2);
            assert_eq!(word_value(&outer.tokens[0]), "a");
            match &outer.tokens[1] {
                Token::Block(inner) => {
                    assert_eq!(inner.opening.scope.start, 4);
                    assert_eq!(inner.tokens.len(), 1);
                    assert_eq!(word_value(&inner.tokens[0]), "b");
                    assert_eq!(inner.closing.scope.start, 8);
                }
                _ => panic!("expected a nested block"),
            }
        }
        _ => panic!("expected a block"),
    }
}

#[test]
fn trailing_comma_leaves_no_phantom_element() {
    let toks = lex_ok("(a,)");
    match &toks[0] {
        Token::Group(g) => {
            assert_eq!(g.elems.len(), 1);
            assert!(g.elems[0].sep.is_some());
        }
        _ => panic!("expected a group"),
    }
    let toks = lex_ok("()");
    match &toks[0] {
        Token::Group(g) => assert_eq!(g.elems.len(), 0),
        _ => panic!("expected a group"),
    }
}

fn check_spans(t: &Token, src: &[char]) {
    match t {
        Token::Word(w) => {
            let spanned: String = src[w.scope.start..w.scope.end].iter().collect();
            assert_eq!(w.value, spanned);
        }
        Token::Symbol(s) => {
            assert_eq!(s.scope.end, s.scope.start + 1);
            assert_eq!(src[s.scope.start], s.value);
        }
        Token::LineBreak(lb) => {
            assert_eq!(src[lb.scope.start], '\n');
        }
        Token::Block(b) => {
            assert_eq!(src[b.opening.scope.start], '{');
            assert_eq!(src[b.closing.scope.start], '}');
            for c in &b.tokens {
                check_spans(c, src);
            }
        }
        Token::Group(g) => {
            assert_eq!(src[g.opening.scope.start], '(');
            assert_eq!(src[g.closing.scope.start], ')');
            for e in &g.elems {
                for c in &e.tokens {
                    check_spans(c, src);
                }
                if let Some(s) = &e.sep {
                    assert_eq!(src[s.scope.start], ',');
                }
            }
        }
    }
}

#[test]
fn every_scope_spans_exactly_its_payload() {
    let src = "fn main { out 1 ( a, b ) }\nx.y!z\n";
    let toks = lex_ok(src);
    let padded: Vec<char> = {
        let mut v = chars(src);
        v.push('\n');
        v
    };
    for t in &toks {
        check_spans(t, &padded);
    }
}

#[test]
fn sep_chars_are_exactly_the_twelve() {
    for c in "(){}[];,.!|:".chars() {
        assert!(is_sep_char(c));
    }
    for c in "ab5 _\n\t-\"'".chars() {
        assert!(!is_sep_char(c));
    }
}

#[test]
fn describe_names_leaf_tokens() {
    let toks = lex_ok("abc ;");
    assert_eq!(toks[0].describe(), "Word 'abc'");
    assert_eq!(toks[1].describe(), "Symbol ';'");
    let toks = lex_ok("\n");
    assert_eq!(toks[0].describe(), "Line Break");
}

#[test]
fn describe_indents_nested_blocks() {
    let toks = lex_ok("{ a { b } }");
    assert_eq!(toks[0].describe(), "Block\n\tWord 'a'\n\tBlock\n\t\tWord 'b'");
}

#[test]
fn describe_lists_group_elements() {
    let toks = lex_ok("(x,y)");
    assert_eq!(toks[0].describe(), "Group\n:Elem:\n\tWord 'x'\n:Elem:\n\tWord 'y'");
}

#[test]
fn duplicate_preserves_the_whole_tree() {
    let toks = lex_ok("{ a ( b, c ) }");
    let dup = toks[0].duplicate();
    assert_eq!(dup.describe(), toks[0].describe());
    let sc = dup.get_scope();
    assert_eq!(sc.start, 0);
    assert_eq!(sc.end, 1);
    assert_eq!(sc.file, "test.mccs");
}
