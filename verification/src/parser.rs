//! The declaration parser: walks the flat top-level token sequence
//! and recognizes datapack and function declarations, collecting the
//! modifier words that precede each declaration.

use vstd::prelude::*;
use vstd::string::StringExecFns;

use crate::tokens::{block_eqv, tok_eqv, Block, Token, Word};

verus! {

/// A recognized function declaration: its name, the modifier words
/// that preceded it, and its body block.
pub struct ParsedFunction {
    pub name: Word,
    pub mods: Vec<Word>,
    pub block: Block,
}

/// Why parsing stopped. Every variant but the last carries the
/// offending token; the last reports a declaration cut short by the
/// end of the token stream.
pub enum ParseError {
    ExpectedIdentifier { token: Token },
    ExpectedEndOfLine { token: Token },
    ExpectedBlock { token: Token },
    MissingDatapackDeclaration { token: Token },
    ExpectedItemDeclaration { token: Token },
    UnexpectedEndOfInput,
}

/// A function declaration as the spec-level parser sees it: the
/// name and block exactly as they stand in the token sequence.
pub struct FunV {
    pub name: Word,
    pub mods: Seq<Word>,
    pub block: Block,
}

/// What a full parse leaves behind: the declared datapack name, if
/// any, and the recognized functions in order.
pub struct ParseFinal {
    pub dp: Option<Word>,
    pub funcs: Seq<FunV>,
}

/// The modifier keywords that may precede a declaration.
pub open spec fn is_modifier(v: Seq<char>) -> bool {
    v == "inline"@ || v == "onload"@ || v == "ontick"@ || v == "cmpdmp"@ || v == "hidden"@
}

/// The spec-level parser: one step per token. A line break is
/// skipped; a modifier word is collected; `datapack` takes an
/// identifier and must end its line; `fn` requires a declared
/// datapack and takes an identifier and a block, consuming the
/// collected modifiers; anything else is rejected with the matching
/// error, and a declaration cut short by the end of the stream is
/// rejected too.
pub open spec fn parse_from(
    tokens: Seq<Token>,
    i: int,
    mods: Seq<Word>,
    dp: Option<Word>,
    funcs: Seq<FunV>,
) -> Result<ParseFinal, ParseError>
    decreases tokens.len() - i,
{
    if i >= tokens.len() {
        Ok(ParseFinal { dp, funcs })
    } else {
        match tokens[i] {
            Token::LineBreak(lb) => parse_from(tokens, i + 1, mods, dp, funcs),
            Token::Word(w) => {
                if is_modifier(w.value@) {
                    parse_from(tokens, i + 1, mods.push(w), dp, funcs)
                } else if w.value@ == "datapack"@ {
                    if i + 1 >= tokens.len() {
                        Err(ParseError::UnexpectedEndOfInput)
                    } else {
                        match tokens[i + 1] {
                            Token::Word(name) => {
                                if i + 2 >= tokens.len() {
                                    Err(ParseError::UnexpectedEndOfInput)
                                } else if tokens[i + 2] is LineBreak {
                                    parse_from(tokens, i + 2, mods, Some(name), funcs)
                                } else {
                                    Err(ParseError::ExpectedEndOfLine { token: tokens[i + 2] })
                                }
                            },
                            _ => Err(ParseError::ExpectedIdentifier { token: tokens[i + 1] }),
                        }
                    }
                } else if w.value@ == "fn"@ {
                    if dp is None {
                        Err(ParseError::MissingDatapackDeclaration { token: tokens[i] })
                    } else if i + 1 >= tokens.len() {
                        Err(ParseError::UnexpectedEndOfInput)
                    } else {
                        match tokens[i + 1] {
                            Token::Word(name) => {
                                if i + 2 >= tokens.len() {
                                    Err(ParseError::UnexpectedEndOfInput)
                                } else {
                                    match tokens[i + 2] {
                                        Token::Block(b) => parse_from(
                                            tokens,
                                            i + 3,
                                            Seq::empty(),
                                            dp,
                                            funcs.push(FunV { name, mods, block: *b }),
                                        ),
                                        _ => Err(
                                            ParseError::ExpectedBlock { token: tokens[i + 2] },
                                        ),
                                    }
                                }
                            },
                            _ => Err(ParseError::ExpectedIdentifier { token: tokens[i + 1] }),
                        }
                    }
                } else {
                    Err(ParseError::ExpectedItemDeclaration { token: tokens[i] })
                }
            },
            _ => Err(ParseError::ExpectedItemDeclaration { token: tokens[i] }),
        }
    }
}

/// The recognized functions equal the spec-level ones, name, modifier
/// list and block alike.
pub open spec fn funs_match(a: Seq<ParsedFunction>, b: Seq<FunV>) -> bool {
    &&& a.len() == b.len()
    &&& forall|i: int|
        0 <= i < a.len() ==> {
            &&& (#[trigger] a[i]).name == b[i].name
            &&& a[i].mods@ == b[i].mods
            &&& block_eqv(a[i].block, b[i].block)
        }
}

/// Parsing came to rest at `idx` holding the datapack declaration
/// and the functions recognized so far: for some collected modifiers
/// and some spec-level account of those functions, resuming the
/// spec-level parser from this very state yields the whole parse's
/// outcome. On an error this pins the retained state to the
/// successfully parsed prefix.
pub open spec fn parse_stopped_at(
    tokens: Seq<Token>,
    idx: int,
    dp: Option<Word>,
    funcs: Seq<ParsedFunction>,
) -> bool {
    exists|mods: Seq<Word>, fvs: Seq<FunV>|
        {
            &&& funs_match(funcs, fvs)
            &&& parse_from(tokens, 0, Seq::empty(), None, Seq::empty()) == #[trigger] parse_from(
                tokens,
                idx,
                mods,
                dp,
                fvs,
            )
        }
}

/// The errors agree, their carried tokens compared structurally.
pub open spec fn err_eqv(a: ParseError, b: ParseError) -> bool {
    match a {
        ParseError::ExpectedIdentifier { token: x } => b matches ParseError::ExpectedIdentifier {
            token: y,
        } && tok_eqv(x, y),
        ParseError::ExpectedEndOfLine { token: x } => b matches ParseError::ExpectedEndOfLine {
            token: y,
        } && tok_eqv(x, y),
        ParseError::ExpectedBlock { token: x } => b matches ParseError::ExpectedBlock { token: y }
            && tok_eqv(x, y),
        ParseError::MissingDatapackDeclaration { token: x } => b matches ParseError::MissingDatapackDeclaration {
            token: y,
        } && tok_eqv(x, y),
        ParseError::ExpectedItemDeclaration { token: x } => b matches ParseError::ExpectedItemDeclaration {
            token: y,
        } && tok_eqv(x, y),
        ParseError::UnexpectedEndOfInput => b is UnexpectedEndOfInput,
    }
}

fn word_is(w: &String, kw: &str) -> (r: bool)
    ensures
        r == (w@ == kw@),
{
    let s: String = kw.to_owned();
    *w == s
}

/// Exactly the modifier keywords.
fn is_modifier_word(w: &String) -> (r: bool)
    ensures
        r == is_modifier(w@),
{
    word_is(w, "inline") || word_is(w, "onload") || word_is(w, "ontick") || word_is(w, "cmpdmp")
        || word_is(w, "hidden")
}

/// The parser's state: the token sequence, a cursor, the datapack
/// name once declared, and the functions recognized so far.
pub struct Parser {
    pub tokens: Vec<Token>,
    pub index: usize,
    pub size: usize,
    pub datapack_name_decl: Option<Word>,
    pub parsed_functions: Vec<ParsedFunction>,
}

impl Parser {
    /// The recorded size is honest and the cursor stays in bounds.
    pub open spec fn wf(self) -> bool {
        &&& self.size == self.tokens@.len()
        &&& self.index <= self.size
    }

    pub fn new(tokens: Vec<Token>) -> (p: Parser)
        ensures
            p.wf(),
            p.tokens == tokens,
            p.index == 0,
            p.datapack_name_decl is None,
            p.parsed_functions@.len() == 0,
    {
        let size = tokens.len();
        Parser { tokens, index: 0, size, datapack_name_decl: None, parsed_functions: Vec::new() }
    }

    /// Consumes the next token, which must be a word; reports the
    /// token otherwise, and the end of the stream if nothing is left.
    pub fn next_ident(&mut self) -> (r: Result<Word, ParseError>)
        requires
            old(self).wf(),
        ensures
            final(self).wf(),
            final(self).tokens == old(self).tokens,
            final(self).size == old(self).size,
            final(self).datapack_name_decl == old(self).datapack_name_decl,
            final(self).parsed_functions == old(self).parsed_functions,
            match r {
                Ok(w) => {
                    &&& old(self).index < old(self).size
                    &&& old(self).tokens@[old(self).index as int] == Token::Word(w)
                    &&& final(self).index == old(self).index + 1
                },
                Err(e) => match e {
                    ParseError::UnexpectedEndOfInput => {
                        &&& old(self).index >= old(self).size
                        &&& final(self).index == old(self).index
                    },
                    ParseError::ExpectedIdentifier { token } => {
                        &&& old(self).index < old(self).size
                        &&& tok_eqv(token, old(self).tokens@[old(self).index as int])
                        &&& !(old(self).tokens@[old(self).index as int] is Word)
                        &&& final(self).index == old(self).index + 1
                    },
                    _ => false,
                },
            },
    {
        if self.index >= self.size {
            return Err(ParseError::UnexpectedEndOfInput);
        }
        let i = self.index;
        self.index = i + 1;
        match &self.tokens[i] {
            Token::Word(w) => Ok(w.duplicate()),
            _ => Err(ParseError::ExpectedIdentifier { token: self.tokens[i].duplicate() }),
        }
    }

    /// Consumes and hands back the next token; reports the end of the
    /// stream if nothing is left.
    pub fn next_token(&mut self) -> (r: Result<Token, ParseError>)
        requires
            old(self).wf(),
        ensures
            final(self).wf(),
            final(self).tokens == old(self).tokens,
            final(self).size == old(self).size,
            final(self).datapack_name_decl == old(self).datapack_name_decl,
            final(self).parsed_functions == old(self).parsed_functions,
            match r {
                Ok(t) => {
                    &&& old(self).index < old(self).size
                    &&& tok_eqv(t, old(self).tokens@[old(self).index as int])
                    &&& final(self).index == old(self).index + 1
                },
                Err(e) => {
                    &&& e is UnexpectedEndOfInput
                    &&& old(self).index >= old(self).size
                    &&& final(self).index == old(self).index
                },
            },
    {
        if self.index >= self.size {
            return Err(ParseError::UnexpectedEndOfInput);
        }
        let i = self.index;
        self.index = i + 1;
        Ok(self.tokens[i].duplicate())
    }

    /// Checks that the token under the cursor ends the line, without
    /// consuming it; reports the token otherwise.
    pub fn expect_line_break(&self) -> (r: Result<(), ParseError>)
        requires
            self.wf(),
        ensures
            match r {
                Ok(u) => {
                    &&& self.index < self.size
                    &&& self.tokens@[self.index as int] is LineBreak
                },
                Err(e) => match e {
                    ParseError::UnexpectedEndOfInput => self.index >= self.size,
                    ParseError::ExpectedEndOfLine { token } => {
                        &&& self.index < self.size
                        &&& tok_eqv(token, self.tokens@[self.index as int])
                        &&& !(self.tokens@[self.index as int] is LineBreak)
                    },
                    _ => false,
                },
            },
    {
        if self.index >= self.size {
            return Err(ParseError::UnexpectedEndOfInput);
        }
        match &self.tokens[self.index] {
            Token::LineBreak(lb) => Ok(()),
            _ => Err(
                ParseError::ExpectedEndOfLine { token: self.tokens[self.index].duplicate() },
            ),
        }
    }

    /// Walks the whole token sequence from the start and recognizes
    /// declarations exactly as the spec-level parser does: on success
    /// the datapack name and the recognized functions equal its
    /// outcome, and on failure the reported error does.
    pub fn parse(&mut self) -> (r: Result<(), ParseError>)
        requires
            old(self).wf(),
            old(self).index == 0,
            old(self).datapack_name_decl is None,
            old(self).parsed_functions@.len() == 0,
        ensures
            final(self).wf(),
            final(self).tokens == old(self).tokens,
            final(self).size == old(self).size,
            match r {
                Ok(u) => {
                    &&& parse_from(
                        old(self).tokens@,
                        0,
                        Seq::empty(),
                        None,
                        Seq::empty(),
                    ) matches Ok(fin)
                    &&& fin.dp == final(self).datapack_name_decl
                    &&& funs_match(final(self).parsed_functions@, fin.funcs)
                },
                Err(e) => {
                    &&& parse_from(old(self).tokens@, 0, Seq::empty(), None, Seq::empty())
                        matches Err(e2)
                    &&& err_eqv(e, e2)
                    &&& parse_stopped_at(
                        old(self).tokens@,
                        final(self).index as int,
                        final(self).datapack_name_decl,
                        final(self).parsed_functions@,
                    )
                },
            },
    {
        let mut mods: Vec<Word> = Vec::new();
        let ghost mut fvs: Seq<FunV> = Seq::empty();

        while self.index < self.size
            invariant
                self.wf(),
                self.tokens == old(self).tokens,
                self.size == old(self).size,
                funs_match(self.parsed_functions@, fvs),
                parse_from(self.tokens@, 0, Seq::empty(), None, Seq::empty()) == parse_from(
                    self.tokens@,
                    self.index as int,
                    mods@,
                    self.datapack_name_decl,
                    fvs,
                ),
            decreases self.size - self.index,
        {
            let i = self.index;
            match &self.tokens[i] {
                Token::LineBreak(lb) => {
                    self.index = i + 1;
                },
                Token::Word(w) => {
                    if is_modifier_word(&w.value) {
                        let wd = w.duplicate();
                        self.index = i + 1;
                        mods.push(wd);
                    } else if word_is(&w.value, "datapack") {
                        if i + 1 >= self.size {
                            proof {
                                assert(parse_stopped_at(
                                    self.tokens@,
                                    self.index as int,
                                    self.datapack_name_decl,
                                    self.parsed_functions@,
                                ));
                            }
                            return Err(ParseError::UnexpectedEndOfInput);
                        }
                        match &self.tokens[i + 1] {
                            Token::Word(name) => {
                                let namew = name.duplicate();
                                if i + 2 >= self.size {
                                    proof {
                                        assert(parse_stopped_at(
                                            self.tokens@,
                                            self.index as int,
                                            self.datapack_name_decl,
                                            self.parsed_functions@,
                                        ));
                                    }
                                    return Err(ParseError::UnexpectedEndOfInput);
                                }
                                match &self.tokens[i + 2] {
                                    Token::LineBreak(lb) => {
                                        self.datapack_name_decl = Some(namew);
                                        self.index = i + 2;
                                    },
                                    _ => {
                                        proof {
                                            assert(parse_stopped_at(
                                                self.tokens@,
                                                self.index as int,
                                                self.datapack_name_decl,
                                                self.parsed_functions@,
                                            ));
                                        }
                                        return Err(
                                            ParseError::ExpectedEndOfLine {
                                                token: self.tokens[i + 2].duplicate(),
                                            },
                                        );
                                    },
                                }
                            },
                            _ => {
                                proof {
                                    assert(parse_stopped_at(
                                        self.tokens@,
                                        self.index as int,
                                        self.datapack_name_decl,
                                        self.parsed_functions@,
                                    ));
                                }
                                return Err(
                                    ParseError::ExpectedIdentifier {
                                        token: self.tokens[i + 1].duplicate(),
                                    },
                                );
                            },
                        }
                    } else if word_is(&w.value, "fn") {
                        if self.datapack_name_decl.is_none() {
                            proof {
                                assert(parse_stopped_at(
                                    self.tokens@,
                                    self.index as int,
                                    self.datapack_name_decl,
                                    self.parsed_functions@,
                                ));
                            }
                            return Err(
                                ParseError::MissingDatapackDeclaration {
                                    token: self.tokens[i].duplicate(),
                                },
                            );
                        }
                        if i + 1 >= self.size {
                            proof {
                                assert(parse_stopped_at(
                                    self.tokens@,
                                    self.index as int,
                                    self.datapack_name_decl,
                                    self.parsed_functions@,
                                ));
                            }
                            return Err(ParseError::UnexpectedEndOfInput);
                        }
                        match &self.tokens[i + 1] {
                            Token::Word(name) => {
                                let namew = name.duplicate();
                                if i + 2 >= self.size {
                                    proof {
                                        assert(parse_stopped_at(
                                            self.tokens@,
                                            self.index as int,
                                            self.datapack_name_decl,
                                            self.parsed_functions@,
                                        ));
                                    }
                                    return Err(ParseError::UnexpectedEndOfInput);
                                }
                                match &self.tokens[i + 2] {
                                    Token::Block(b) => {
                                        let bd = b.duplicate();
                                        let done_mods = mods;
                                        mods = Vec::new();
                                        proof {
                                            fvs = fvs.push(
                                                FunV {
                                                    name: namew,
                                                    mods: done_mods@,
                                                    block: **b,
                                                },
                                            );
                                        }
                                        self.parsed_functions.push(
                                            ParsedFunction {
                                                name: namew,
                                                mods: done_mods,
                                                block: bd,
                                            },
                                        );
                                        self.index = i + 3;
                                    },
                                    _ => {
                                        proof {
                                            assert(parse_stopped_at(
                                                self.tokens@,
                                                self.index as int,
                                                self.datapack_name_decl,
                                                self.parsed_functions@,
                                            ));
                                        }
                                        return Err(
                                            ParseError::ExpectedBlock {
                                                token: self.tokens[i + 2].duplicate(),
                                            },
                                        );
                                    },
                                }
                            },
                            _ => {
                                proof {
                                    assert(parse_stopped_at(
                                        self.tokens@,
                                        self.index as int,
                                        self.datapack_name_decl,
                                        self.parsed_functions@,
                                    ));
                                }
                                return Err(
                                    ParseError::ExpectedIdentifier {
                                        token: self.tokens[i + 1].duplicate(),
                                    },
                                );
                            },
                        }
                    } else {
                        proof {
                            assert(parse_stopped_at(
                                self.tokens@,
                                self.index as int,
                                self.datapack_name_decl,
                                self.parsed_functions@,
                            ));
                        }
                        return Err(
                            ParseError::ExpectedItemDeclaration {
                                token: self.tokens[i].duplicate(),
                            },
                        );
                    }
                },
                _ => {
                    proof {
                        assert(parse_stopped_at(
                            self.tokens@,
                            self.index as int,
                            self.datapack_name_decl,
                            self.parsed_functions@,
                        ));
                    }
                    return Err(
                        ParseError::ExpectedItemDeclaration { token: self.tokens[i].duplicate() },
                    );
                },
            }
        }
        Ok(())
    }
}

/// The values of the first `n` words, comma-separated.
pub open spec fn elems_inner(ws: Seq<Word>, n: int) -> Seq<char>
    decreases n,
{
    if n <= 0 || n > ws.len() {
        Seq::empty()
    } else if n == 1 {
        ws[0].value@
    } else {
        elems_inner(ws, n - 1) + ", "@ + ws[n - 1].value@
    }
}

/// The bracketed, comma-separated list of the words' values.
pub open spec fn elems_string_seq(ws: Seq<Word>) -> Seq<char> {
    seq!['['] + elems_inner(ws, ws.len() as int) + seq![']']
}

/// Renders a bracketed, comma-separated list of the words' values.
pub fn elems_to_string(vec: &Vec<Word>) -> (r: String)
    ensures
        r@ == elems_string_seq(vec@),
{
    let mut s = String::new();
    crate::bash_tools::push_char(&mut s, '[');
    let n = vec.len();
    if n > 0 {
        s.append(vec[0].value.as_str());
        let mut i: usize = 1;
        while i < n
            invariant
                1 <= i <= n,
                n == vec@.len(),
                s@ == seq!['['] + elems_inner(vec@, i as int),
            decreases n - i,
        {
            s.append(", ");
            s.append(vec[i].value.as_str());
            i += 1;
        }
    }
    crate::bash_tools::push_char(&mut s, ']');
    proof {
        assert(s@ =~= elems_string_seq(vec@));
    }
    s
}

/// The one-line account of a parsed function: its modifier list and
/// its name.
pub open spec fn fun_describe_seq(f: ParsedFunction) -> Seq<char> {
    elems_string_seq(f.mods@) + " function "@ + f.name.value@
}

impl ParsedFunction {
    /// One line naming this function and its modifiers.
    pub fn describe(&self) -> (r: String)
        ensures
            r@ == fun_describe_seq(*self),
    {
        let mut s = elems_to_string(&self.mods);
        s.append(" function ");
        s.append(self.name.value.as_str());
        s
    }
}

} // verus!
