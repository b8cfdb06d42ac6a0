//! The token tree produced by the tokenizer, and the spec-level model
//! that ties every token to the exact character range it was read from.

use vstd::prelude::*;

verus! {

/// A half-open character range `[start, end)` inside the registered
/// source named `file`.
pub struct Scope {
    pub file: String,
    pub start: usize,
    pub end: usize,
}

/// A maximal run of non-space, non-separator, non-newline characters.
pub struct Word {
    pub value: String,
    pub scope: Scope,
}

/// A single separator character.
pub struct Symbol {
    pub value: char,
    pub scope: Scope,
}

/// A single `'\n'` character.
pub struct LineBreak {
    pub scope: Scope,
}

/// The contents between a `{` and its matching `}`.
pub struct Block {
    pub opening: Symbol,
    pub closing: Symbol,
    pub tokens: Vec<Token>,
}

/// The contents between a `(` and its matching `)`, split at commas.
pub struct Group {
    pub opening: Symbol,
    pub closing: Symbol,
    pub elems: Vec<GroupElem>,
}

/// One comma-delimited segment of a group; `sep` is the comma that
/// terminated it, `None` for the final segment.
pub struct GroupElem {
    pub tokens: Vec<Token>,
    pub sep: Option<Symbol>,
}

pub enum Token {
    Word(Word),
    Symbol(Symbol),
    LineBreak(LineBreak),
    Block(Box<Block>),
    Group(Box<Group>),
}

/// The separator characters; each is tokenized as a standalone symbol
/// outside of block/group delegation.
pub open spec fn is_separator(c: char) -> bool {
    c == '(' || c == ')' || c == '{' || c == '}' || c == '[' || c == ']' || c == ';' || c == ','
        || c == '.' || c == '!' || c == '|' || c == ':'
}

/// A character that may stand inside a word.
pub open spec fn is_word_char(c: char) -> bool {
    c != '\n' && c != ' ' && !is_separator(c)
}

/// Every character of `src` in `[lo, hi)` is a plain space.
pub open spec fn all_spaces(src: Seq<char>, lo: int, hi: int) -> bool {
    forall|i: int| lo <= i < hi ==> src[i] == ' '
}

/// `s` names one character of the source `src` of file `file`, and
/// holds a copy of exactly that character.
pub open spec fn symbol_in(s: Symbol, src: Seq<char>, file: Seq<char>) -> bool {
    &&& s.scope.file@ == file
    &&& s.scope.end == s.scope.start + 1
    &&& s.scope.end <= src.len()
    &&& src[s.scope.start as int] == s.value
}

/// The first character position claimed by a token.
pub open spec fn tok_start(t: Token) -> int {
    match t {
        Token::Word(w) => w.scope.start as int,
        Token::Symbol(s) => s.scope.start as int,
        Token::LineBreak(lb) => lb.scope.start as int,
        Token::Block(b) => b.opening.scope.start as int,
        Token::Group(g) => g.opening.scope.start as int,
    }
}

/// One past the last character position claimed by a token.
pub open spec fn tok_end(t: Token) -> int {
    match t {
        Token::Word(w) => w.scope.end as int,
        Token::Symbol(s) => s.scope.end as int,
        Token::LineBreak(lb) => lb.scope.end as int,
        Token::Block(b) => b.closing.scope.end as int,
        Token::Group(g) => g.closing.scope.end as int,
    }
}

/// The token `t` is exactly what the tokenizer derives from the
/// characters `src[tok_start(t) .. tok_end(t))` of the source of
/// `file`: its payload equals the spanned text, and its children
/// claim, in order and without overlap, every non-space position of
/// the spanned interior.
pub open spec fn token_in(t: Token, src: Seq<char>, file: Seq<char>) -> bool
    decreases t, 0int,
{
    match t {
        Token::Word(w) => {
            &&& w.scope.file@ == file
            &&& w.scope.start < w.scope.end
            &&& w.scope.end <= src.len()
            &&& w.value@ == src.subrange(w.scope.start as int, w.scope.end as int)
            &&& forall|i: int|
                w.scope.start <= i < w.scope.end ==> is_word_char(#[trigger] src[i])
            &&& (w.scope.end == src.len() || !is_word_char(src[w.scope.end as int]))
        },
        Token::Symbol(s) => {
            &&& symbol_in(s, src, file)
            &&& is_separator(s.value)
            &&& s.value != '(' && s.value != ')' && s.value != '{' && s.value != '}'
        },
        Token::LineBreak(lb) => {
            &&& lb.scope.file@ == file
            &&& lb.scope.end == lb.scope.start + 1
            &&& lb.scope.end <= src.len()
            &&& src[lb.scope.start as int] == '\n'
        },
        Token::Block(b) => {
            &&& symbol_in(b.opening, src, file)
            &&& b.opening.value == '{'
            &&& symbol_in(b.closing, src, file)
            &&& b.closing.value == '}'
            &&& b.opening.scope.end <= b.closing.scope.start
            &&& seq_in(
                b.tokens@,
                src,
                file,
                b.opening.scope.end as int,
                b.closing.scope.start as int,
            )
        },
        Token::Group(g) => {
            &&& symbol_in(g.opening, src, file)
            &&& g.opening.value == '('
            &&& symbol_in(g.closing, src, file)
            &&& g.closing.value == ')'
            &&& g.opening.scope.end <= g.closing.scope.start
            &&& elems_in(
                g.elems@,
                src,
                file,
                g.opening.scope.end as int,
                g.closing.scope.start as int,
            )
        },
    }
}

/// The tokens `ts` stand in order inside `[lo, hi)`: each is derived
/// from its own range, consecutive ranges do not overlap, and every
/// position of `[lo, hi)` left unclaimed between them is a space.
pub open spec fn seq_in(ts: Seq<Token>, src: Seq<char>, file: Seq<char>, lo: int, hi: int) -> bool
    decreases ts, 3int,
{
    &&& 0 <= lo <= hi <= src.len()
    &&& forall|i: int| 0 <= i < ts.len() ==> token_in(#[trigger] ts[i], src, file)
    &&& forall|i: int|
        0 <= i < ts.len() ==> lo <= tok_start(#[trigger] ts[i]) && tok_end(ts[i]) <= hi
    &&& forall|i: int| 0 <= i < ts.len() - 1 ==> tok_end(#[trigger] ts[i]) <= tok_start(ts[i + 1])
    &&& if ts.len() == 0 {
        all_spaces(src, lo, hi)
    } else {
        &&& all_spaces(src, lo, tok_start(ts[0]))
        &&& all_spaces(src, tok_end(ts[ts.len() - 1]), hi)
        &&& forall|i: int|
            0 <= i < ts.len() - 1 ==> all_spaces(src, tok_end(#[trigger] ts[i]), tok_start(ts[i + 1]))
    }
}

/// One past the last position the sequence's tokens reach, or `lo`
/// when it is empty.
pub open spec fn seq_end(ts: Seq<Token>, lo: int) -> int {
    if ts.len() == 0 {
        lo
    } else {
        tok_end(ts[ts.len() - 1])
    }
}

/// Where the `i`-th group element begins: at `lo` for the first one,
/// right after the previous element's comma for the others.
pub open spec fn elem_lo(es: Seq<GroupElem>, i: int, lo: int) -> int {
    if i <= 0 {
        lo
    } else {
        es[i - 1].sep->Some_0.scope.end as int
    }
}

/// A standalone comma symbol; commas delimit group elements, so one
/// never stands among an element's own tokens.
pub open spec fn is_comma_symbol(t: Token) -> bool {
    t matches Token::Symbol(s) && s.value == ','
}

/// No token of the sequence is a standalone comma symbol.
pub open spec fn no_comma_tokens(ts: Seq<Token>) -> bool {
    forall|i: int| 0 <= i < ts.len() ==> !is_comma_symbol(#[trigger] ts[i])
}

/// A group element that was closed by a comma: its tokens stand
/// between `lo` and the comma, and the comma is a one-character
/// symbol of the source.
pub open spec fn elem_closed(e: GroupElem, src: Seq<char>, file: Seq<char>, lo: int) -> bool
    decreases e, 0int,
{
    &&& e.sep is Some
    &&& symbol_in(e.sep->Some_0, src, file)
    &&& e.sep->Some_0.value == ','
    &&& lo <= e.sep->Some_0.scope.start
    &&& seq_in(e.tokens@, src, file, lo, e.sep->Some_0.scope.start as int)
}

/// The first `n` elements of `es` are comma-closed, each starting
/// where the previous one's comma ended.
pub open spec fn elems_closed(
    es: Seq<GroupElem>,
    src: Seq<char>,
    file: Seq<char>,
    lo: int,
    n: int,
) -> bool
    decreases es, 1int,
{
    forall|i: int|
        0 <= i < n && i < es.len() ==> elem_closed(#[trigger] es[i], src, file, elem_lo(es, i, lo))
}

/// One past the last comma of `es`, or `lo` when `es` is empty.
pub open spec fn elems_end(es: Seq<GroupElem>, lo: int) -> int {
    elem_lo(es, es.len() as int, lo)
}

/// The group elements `es` partition `[lo, hi)`: every element but
/// possibly the last is closed by its comma, a last element without a
/// comma is non-empty and runs to `hi`, what no element claims is
/// spaces, and no element holds a standalone comma among its own
/// tokens (commas only ever delimit elements).
pub open spec fn elems_in(
    es: Seq<GroupElem>,
    src: Seq<char>,
    file: Seq<char>,
    lo: int,
    hi: int,
) -> bool
    decreases es, 2int,
{
    &&& 0 <= lo <= hi <= src.len()
    &&& forall|i: int| 0 <= i < es.len() ==> no_comma_tokens((#[trigger] es[i]).tokens@)
    &&& if es.len() == 0 {
        all_spaces(src, lo, hi)
    } else if es[es.len() - 1].sep is Some {
        &&& elems_closed(es, src, file, lo, es.len() as int)
        &&& elems_end(es, lo) <= hi
        &&& all_spaces(src, elems_end(es, lo), hi)
    } else {
        &&& elems_closed(es, src, file, lo, es.len() - 1)
        &&& es[es.len() - 1].tokens@.len() > 0
        &&& seq_in(es[es.len() - 1].tokens@, src, file, elem_lo(es, es.len() - 1, lo), hi)
    }
}

/// A token read while a comma was not under the cursor is no comma
/// symbol, so appending it keeps a token list comma-free.
pub proof fn lemma_no_comma_push(ts: Seq<Token>, t: Token)
    requires
        no_comma_tokens(ts),
        !is_comma_symbol(t),
    ensures
        no_comma_tokens(ts.push(t)),
{
    let ts2 = ts.push(t);
    assert forall|i: int| 0 <= i < ts2.len() implies !is_comma_symbol(#[trigger] ts2[i]) by {
        if i < ts.len() {
            assert(ts2[i] == ts[i]);
        } else {
            assert(ts2[i] == t);
        }
    }
}

/// Appending a comma-free element keeps every element of the list
/// comma-free.
pub proof fn lemma_elems_no_comma_push(es: Seq<GroupElem>, e: GroupElem)
    requires
        forall|i: int| 0 <= i < es.len() ==> no_comma_tokens((#[trigger] es[i]).tokens@),
        no_comma_tokens(e.tokens@),
    ensures
        forall|i: int|
            0 <= i < es.push(e).len() ==> no_comma_tokens((#[trigger] es.push(e)[i]).tokens@),
{
    let es2 = es.push(e);
    assert forall|i: int| 0 <= i < es2.len() implies no_comma_tokens((#[trigger] es2[i]).tokens@) by {
        if i < es.len() {
            assert(es2[i] == es[i]);
        } else {
            assert(es2[i] == e);
        }
    }
}

impl Scope {
    /// A fresh value naming the same range of the same file.
    pub fn duplicate(&self) -> (r: Scope)
        ensures
            r == *self,
    {
        Scope { file: self.file.clone(), start: self.start, end: self.end }
    }
}

impl Symbol {
    /// A fresh copy of this symbol.
    pub fn duplicate(&self) -> (r: Symbol)
        ensures
            r == *self,
    {
        Symbol { value: self.value, scope: self.scope.duplicate() }
    }
}

impl Word {
    /// A fresh copy of this word.
    pub fn duplicate(&self) -> (r: Word)
        ensures
            r == *self,
    {
        Word { value: self.value.clone(), scope: self.scope.duplicate() }
    }
}

impl Token {
    /// The scope a diagnostic should point at: the token's own range,
    /// or the opening symbol's range for a block or group.
    pub open spec fn spec_scope(self) -> Scope {
        match self {
            Token::Word(w) => w.scope,
            Token::Symbol(s) => s.scope,
            Token::LineBreak(lb) => lb.scope,
            Token::Block(b) => b.opening.scope,
            Token::Group(g) => g.opening.scope,
        }
    }

    pub fn get_scope(&self) -> (r: Scope)
        ensures
            r == self.spec_scope(),
    {
        match self {
            Token::Word(w) => w.scope.duplicate(),
            Token::Symbol(s) => s.scope.duplicate(),
            Token::LineBreak(lb) => lb.scope.duplicate(),
            Token::Block(b) => b.opening.scope.duplicate(),
            Token::Group(g) => g.opening.scope.duplicate(),
        }
    }

    pub fn new_word(value: String, scope: Scope) -> (r: Token)
        ensures
            r == Token::Word(Word { value, scope }),
    {
        Token::Word(Word { value, scope })
    }

    pub fn new_symbol(value: char, scope: Scope) -> (r: Token)
        ensures
            r == Token::Symbol(Symbol { value, scope }),
    {
        Token::Symbol(Symbol { value, scope })
    }

    pub fn new_line_break(scope: Scope) -> (r: Token)
        ensures
            r == Token::LineBreak(LineBreak { scope }),
    {
        Token::LineBreak(LineBreak { scope })
    }

    pub fn new_block(opening: Symbol, closing: Symbol, tokens: Vec<Token>) -> (r: Token)
        ensures
            r == Token::Block(Box::new(Block { opening, closing, tokens })),
    {
        Token::Block(Box::new(Block { opening, closing, tokens }))
    }

    pub fn new_group(opening: Symbol, closing: Symbol, elems: Vec<GroupElem>) -> (r: Token)
        ensures
            r == Token::Group(Box::new(Group { opening, closing, elems })),
    {
        Token::Group(Box::new(Group { opening, closing, elems }))
    }
}

/// `a` is the same token as `b`, field for field, children compared
/// in order. This is structural equality; it is spelled out because a
/// rebuilt token tree lives in fresh vectors.
pub open spec fn tok_eqv(a: Token, b: Token) -> bool
    decreases a,
{
    match a {
        Token::Word(x) => b matches Token::Word(y) && x == y,
        Token::Symbol(x) => b matches Token::Symbol(y) && x == y,
        Token::LineBreak(x) => b matches Token::LineBreak(y) && x == y,
        Token::Block(x) => b matches Token::Block(y) && block_eqv(*x, *y),
        Token::Group(x) => b matches Token::Group(y) && group_eqv(*x, *y),
    }
}

/// The blocks carry the same delimiters and the same tokens.
pub open spec fn block_eqv(a: Block, b: Block) -> bool
    decreases a,
{
    &&& a.opening == b.opening
    &&& a.closing == b.closing
    &&& toks_eqv(a.tokens@, b.tokens@)
}

/// The groups carry the same delimiters and the same elements.
pub open spec fn group_eqv(a: Group, b: Group) -> bool
    decreases a,
{
    &&& a.opening == b.opening
    &&& a.closing == b.closing
    &&& a.elems@.len() == b.elems@.len()
    &&& forall|i: int| 0 <= i < a.elems@.len() ==> elem_eqv(#[trigger] a.elems@[i], b.elems@[i])
}

/// The elements carry the same tokens and the same separator.
pub open spec fn elem_eqv(a: GroupElem, b: GroupElem) -> bool
    decreases a,
{
    &&& a.sep == b.sep
    &&& toks_eqv(a.tokens@, b.tokens@)
}

/// The sequences carry the same tokens in the same order.
pub open spec fn toks_eqv(a: Seq<Token>, b: Seq<Token>) -> bool
    decreases a,
{
    &&& a.len() == b.len()
    &&& forall|i: int| 0 <= i < a.len() ==> tok_eqv(#[trigger] a[i], b[i])
}

impl Block {
    /// A fresh copy of this block, token for token.
    pub fn duplicate(&self) -> (r: Block)
        ensures
            block_eqv(r, *self),
        decreases *self,
    {
        let opening = self.opening.duplicate();
        let closing = self.closing.duplicate();
        let mut toks: Vec<Token> = Vec::new();
        let n = self.tokens.len();
        let mut i: usize = 0;
        while i < n
            invariant
                n == self.tokens@.len(),
                i <= n,
                toks@.len() == i,
                forall|j: int| 0 <= j < i ==> tok_eqv(#[trigger] toks@[j], self.tokens@[j]),
            decreases n - i,
        {
            let t = self.tokens[i].duplicate();
            toks.push(t);
            i += 1;
        }
        Block { opening, closing, tokens: toks }
    }
}

impl GroupElem {
    /// A fresh copy of this element, token for token.
    pub fn duplicate(&self) -> (r: GroupElem)
        ensures
            elem_eqv(r, *self),
        decreases *self,
    {
        let mut toks: Vec<Token> = Vec::new();
        let n = self.tokens.len();
        let mut i: usize = 0;
        while i < n
            invariant
                n == self.tokens@.len(),
                i <= n,
                toks@.len() == i,
                forall|j: int| 0 <= j < i ==> tok_eqv(#[trigger] toks@[j], self.tokens@[j]),
            decreases n - i,
        {
            let t = self.tokens[i].duplicate();
            toks.push(t);
            i += 1;
        }
        let sep = match &self.sep {
            Some(s) => Some(s.duplicate()),
            None => None,
        };
        GroupElem { tokens: toks, sep }
    }
}

impl Group {
    /// A fresh copy of this group, element for element.
    pub fn duplicate(&self) -> (r: Group)
        ensures
            group_eqv(r, *self),
        decreases *self,
    {
        let opening = self.opening.duplicate();
        let closing = self.closing.duplicate();
        let mut elems: Vec<GroupElem> = Vec::new();
        let n = self.elems.len();
        let mut i: usize = 0;
        while i < n
            invariant
                n == self.elems@.len(),
                i <= n,
                elems@.len() == i,
                forall|j: int| 0 <= j < i ==> elem_eqv(#[trigger] elems@[j], self.elems@[j]),
            decreases n - i,
        {
            let e = self.elems[i].duplicate();
            elems.push(e);
            i += 1;
        }
        Group { opening, closing, elems }
    }
}

impl Token {
    /// A fresh copy of this token tree.
    pub fn duplicate(&self) -> (r: Token)
        ensures
            tok_eqv(r, *self),
        decreases *self,
    {
        match self {
            Token::Word(w) => Token::Word(w.duplicate()),
            Token::Symbol(s) => Token::Symbol(s.duplicate()),
            Token::LineBreak(lb) => Token::LineBreak(LineBreak { scope: lb.scope.duplicate() }),
            Token::Block(b) => Token::Block(Box::new(b.duplicate())),
            Token::Group(g) => Token::Group(Box::new(g.duplicate())),
        }
    }
}

/// `s` with a tab inserted after every newline, so that a nested
/// description is indented one step further than its parent.
pub open spec fn indent_nl(s: Seq<char>) -> Seq<char>
    decreases s.len(),
{
    if s.len() == 0 {
        Seq::empty()
    } else if s[0] == '\n' {
        seq!['\n', '\t'] + indent_nl(s.drop_first())
    } else {
        seq![s[0]] + indent_nl(s.drop_first())
    }
}

proof fn lemma_indent_nl_snoc(s: Seq<char>, c: char)
    ensures
        indent_nl(s.push(c)) == indent_nl(s) + (if c == '\n' {
            seq!['\n', '\t']
        } else {
            seq![c]
        }),
    decreases s.len(),
{
    reveal_with_fuel(indent_nl, 3);
    if s.len() == 0 {
        assert(s.push(c).drop_first() =~= Seq::<char>::empty());
        assert(indent_nl(s.push(c)) =~= indent_nl(s) + (if c == '\n' {
            seq!['\n', '\t']
        } else {
            seq![c]
        }));
    } else {
        lemma_indent_nl_snoc(s.drop_first(), c);
        assert(s.push(c).drop_first() =~= s.drop_first().push(c));
        assert(s.push(c)[0] == s[0]);
        assert(indent_nl(s.push(c)) =~= indent_nl(s) + (if c == '\n' {
            seq!['\n', '\t']
        } else {
            seq![c]
        }));
    }
}

/// The textual description of a token, as the diagnostic title shows
/// it: leaf tokens name their payload, blocks and groups list their
/// children on indented lines.
pub open spec fn describe_spec(t: Token) -> Seq<char>
    decreases t, 0int,
{
    match t {
        Token::Word(w) => "Word '"@ + w.value@ + seq!['\''],
        Token::Symbol(s) => "Symbol '"@ + seq![s.value] + seq!['\''],
        Token::LineBreak(lb) => "Line Break"@,
        Token::Block(b) => "Block"@ + describe_toks(b.tokens@, b.tokens@.len() as int),
        Token::Group(g) => "Group"@ + describe_elems(g.elems@, g.elems@.len() as int),
    }
}

/// The descriptions of the first `n` tokens, each on a fresh indented
/// line.
pub open spec fn describe_toks(ts: Seq<Token>, n: int) -> Seq<char>
    decreases ts, n,
{
    if n <= 0 || n > ts.len() {
        Seq::empty()
    } else {
        describe_toks(ts, n - 1) + seq!['\n', '\t'] + indent_nl(describe_spec(ts[n - 1]))
    }
}

/// The descriptions of the first `n` group elements, each opened by
/// an element marker line.
pub open spec fn describe_elems(es: Seq<GroupElem>, n: int) -> Seq<char>
    decreases es, n,
{
    if n <= 0 || n > es.len() {
        Seq::empty()
    } else {
        describe_elems(es, n - 1) + "\n:Elem:"@ + describe_toks(
            es[n - 1].tokens@,
            es[n - 1].tokens@.len() as int,
        )
    }
}

/// Appends all of `src` to `dst`.
fn append_chars(dst: &mut Vec<char>, src: &Vec<char>)
    ensures
        final(dst)@ == old(dst)@ + src@,
{
    let n = src.len();
    let mut i: usize = 0;
    proof {
        assert(dst@ =~= old(dst)@ + src@.take(0));
    }
    while i < n
        invariant
            i <= n,
            n == src@.len(),
            dst@ == old(dst)@ + src@.take(i as int),
        decreases n - i,
    {
        dst.push(src[i]);
        i += 1;
        proof {
            assert(dst@ =~= old(dst)@ + src@.take(i as int));
        }
    }
    proof {
        assert(old(dst)@ + src@.take(n as int) =~= old(dst)@ + src@);
    }
}

/// A copy of `src` with a tab inserted after every newline.
fn indent_chars(src: &Vec<char>) -> (r: Vec<char>)
    ensures
        r@ == indent_nl(src@),
{
    let mut out: Vec<char> = Vec::new();
    let n = src.len();
    let mut i: usize = 0;
    proof {
        assert(src@.take(0) =~= Seq::<char>::empty());
    }
    while i < n
        invariant
            i <= n,
            n == src@.len(),
            out@ == indent_nl(src@.take(i as int)),
        decreases n - i,
    {
        let c = src[i];
        out.push(c);
        if c == '\n' {
            out.push('\t');
        }
        i += 1;
        proof {
            lemma_indent_nl_snoc(src@.take(i - 1), c);
            assert(src@.take(i - 1).push(c) =~= src@.take(i as int));
            assert(out@ =~= indent_nl(src@.take(i as int)));
        }
    }
    proof {
        assert(src@.take(n as int) =~= src@);
    }
    out
}

/// Appends the descriptions of all of `es` to `v`, each element
/// opened by its marker line.
fn describe_group_elems(v: &mut Vec<char>, es: &Vec<GroupElem>)
    ensures
        final(v)@ == old(v)@ + describe_elems(es@, es@.len() as int),
    decreases *es,
{
    let n = es.len();
    let mut i: usize = 0;
    proof {
        assert(v@ =~= old(v)@ + describe_elems(es@, 0));
    }
    while i < n
        invariant
            i <= n,
            n == es@.len(),
            v@ == old(v)@ + describe_elems(es@, i as int),
        decreases n - i,
    {
        describe_elem_into(v, &es[i]);
        i += 1;
        proof {
            assert(v@ =~= old(v)@ + describe_elems(es@, i as int));
        }
    }
}

/// Appends one element's marker line and the indented descriptions
/// of its tokens to `v`.
fn describe_elem_into(v: &mut Vec<char>, e: &GroupElem)
    ensures
        final(v)@ == old(v)@ + "\n:Elem:"@ + describe_toks(e.tokens@, e.tokens@.len() as int),
    decreases *e,
{
    let marker = crate::bash_tools::string_chars("\n:Elem:");
    append_chars(v, &marker);
    describe_tokens_into(v, &e.tokens);
}

/// Appends the indented descriptions of all of `ts` to `v`, one
/// token per line.
fn describe_tokens_into(v: &mut Vec<char>, ts: &Vec<Token>)
    ensures
        final(v)@ == old(v)@ + describe_toks(ts@, ts@.len() as int),
    decreases *ts,
{
    let n = ts.len();
    let mut i: usize = 0;
    proof {
        assert(v@ =~= old(v)@ + describe_toks(ts@, 0));
    }
    while i < n
        invariant
            i <= n,
            n == ts@.len(),
            v@ == old(v)@ + describe_toks(ts@, i as int),
        decreases n - i,
    {
        v.push('\n');
        v.push('\t');
        let child = ts[i].describe_chars();
        let ind = indent_chars(&child);
        append_chars(v, &ind);
        i += 1;
        proof {
            assert(v@ =~= old(v)@ + describe_toks(ts@, i as int));
        }
    }
}

impl Token {
    /// The characters of this token's description.
    fn describe_chars(&self) -> (r: Vec<char>)
        ensures
            r@ == describe_spec(*self),
        decreases *self,
    {
        match self {
            Token::Word(w) => {
                let mut v = crate::bash_tools::string_chars("Word '");
                let val = crate::bash_tools::string_chars(w.value.as_str());
                append_chars(&mut v, &val);
                v.push('\'');
                proof {
                    assert(v@ =~= describe_spec(*self));
                }
                v
            },
            Token::Symbol(s) => {
                let mut v = crate::bash_tools::string_chars("Symbol '");
                v.push(s.value);
                v.push('\'');
                proof {
                    assert(v@ =~= describe_spec(*self));
                }
                v
            },
            Token::LineBreak(lb) => crate::bash_tools::string_chars("Line Break"),
            Token::Block(b) => {
                let mut v = crate::bash_tools::string_chars("Block");
                describe_tokens_into(&mut v, &b.tokens);
                v
            },
            Token::Group(g) => {
                let mut v = crate::bash_tools::string_chars("Group");
                describe_group_elems(&mut v, &g.elems);
                v
            },
        }
    }

    /// The textual description of this token, as diagnostics title
    /// it.
    pub fn describe(&self) -> (r: String)
        ensures
            r@ == describe_spec(*self),
    {
        let v = self.describe_chars();
        crate::bash_tools::string_of_chars(&v)
    }
}

/// Appending a token that begins exactly where the covered range
/// ended keeps a token sequence well-placed.
pub proof fn lemma_seq_in_push(
    ts: Seq<Token>,
    src: Seq<char>,
    file: Seq<char>,
    lo: int,
    mid: int,
    hi: int,
    t: Token,
)
    requires
        seq_in(ts, src, file, lo, mid),
        token_in(t, src, file),
        tok_start(t) == mid,
        tok_end(t) == hi,
        mid <= hi <= src.len(),
    ensures
        seq_in(ts.push(t), src, file, lo, hi),
{
    let ts2 = ts.push(t);
    assert forall|i: int| 0 <= i < ts2.len() implies token_in(#[trigger] ts2[i], src, file) by {
        if i < ts.len() {
            assert(ts2[i] == ts[i]);
        } else {
            assert(ts2[i] == t);
        }
    }
    assert forall|i: int|
        0 <= i < ts2.len() implies lo <= tok_start(#[trigger] ts2[i]) && tok_end(ts2[i]) <= hi by {
        if i < ts.len() {
            assert(ts2[i] == ts[i]);
        } else {
            assert(ts2[i] == t);
        }
    }
    assert forall|i: int|
        0 <= i < ts2.len() - 1 implies tok_end(#[trigger] ts2[i]) <= tok_start(ts2[i + 1]) by {
        assert(ts2[i] == ts[i]);
        if i < ts.len() - 1 {
            assert(ts2[i + 1] == ts[i + 1]);
        } else {
            assert(ts2[i + 1] == t);
        }
    }
    if ts.len() == 0 {
        assert(ts2[0] == t);
        assert(all_spaces(src, lo, tok_start(ts2[0])));
    } else {
        assert(ts2[0] == ts[0]);
        assert(ts2[ts2.len() - 1] == t);
        assert(all_spaces(src, tok_end(ts2[ts2.len() - 1]), hi));
        assert forall|i: int|
            0 <= i < ts2.len() - 1 implies all_spaces(
                src,
                tok_end(#[trigger] ts2[i]),
                tok_start(ts2[i + 1]),
            ) by {
            assert(ts2[i] == ts[i]);
            if i < ts.len() - 1 {
                assert(ts2[i + 1] == ts[i + 1]);
            } else {
                assert(ts2[i + 1] == t);
                assert(all_spaces(src, tok_end(ts[ts.len() - 1]), mid));
            }
        }
    }
}

/// Widening the covered range over trailing spaces keeps a token
/// sequence well-placed.
pub proof fn lemma_seq_in_grow(
    ts: Seq<Token>,
    src: Seq<char>,
    file: Seq<char>,
    lo: int,
    mid: int,
    hi: int,
)
    requires
        seq_in(ts, src, file, lo, mid),
        all_spaces(src, mid, hi),
        mid <= hi <= src.len(),
    ensures
        seq_in(ts, src, file, lo, hi),
{
    if ts.len() == 0 {
        assert forall|i: int| lo <= i < hi implies src[i] == ' ' by {
            if i < mid {
                assert(all_spaces(src, lo, mid));
            }
        }
    } else {
        let last = tok_end(ts[ts.len() - 1]);
        assert forall|i: int| last <= i < hi implies src[i] == ' ' by {
            if i < mid {
                assert(all_spaces(src, last, mid));
            }
        }
    }
}

/// Appending a comma-closed element right after the previous commas
/// keeps the element prefix closed, and moves its end to the new
/// comma's end.
pub proof fn lemma_elems_push_closed(
    es: Seq<GroupElem>,
    src: Seq<char>,
    file: Seq<char>,
    lo: int,
    e: GroupElem,
)
    requires
        elems_closed(es, src, file, lo, es.len() as int),
        elem_closed(e, src, file, elems_end(es, lo)),
    ensures
        elems_closed(es.push(e), src, file, lo, es.len() as int + 1),
        elems_end(es.push(e), lo) == e.sep->Some_0.scope.end,
{
    let es2 = es.push(e);
    assert forall|i: int|
        0 <= i < es.len() + 1 && i < es2.len() implies elem_closed(
        #[trigger] es2[i],
        src,
        file,
        elem_lo(es2, i, lo),
    ) by {
        if i < es.len() {
            assert(es2[i] == es[i]);
            if i > 0 {
                assert(es2[i - 1] == es[i - 1]);
            }
            assert(elem_lo(es2, i, lo) == elem_lo(es, i, lo));
        } else {
            assert(es2[i] == e);
            if i > 0 {
                assert(es2[i - 1] == es[i - 1]);
            }
            assert(elem_lo(es2, i, lo) == elems_end(es, lo));
        }
    }
    assert(es2[es.len() as int] == e);
}

/// A sequence of comma-closed elements followed by spaces up to `hi`
/// forms a complete element list for `[lo, hi)`.
pub proof fn lemma_elems_in_closed(
    es: Seq<GroupElem>,
    src: Seq<char>,
    file: Seq<char>,
    lo: int,
    hi: int,
)
    requires
        0 <= lo <= hi <= src.len(),
        elems_closed(es, src, file, lo, es.len() as int),
        elems_end(es, lo) <= hi,
        all_spaces(src, elems_end(es, lo), hi),
        es.len() == 0 ==> elems_end(es, lo) == lo,
        forall|i: int| 0 <= i < es.len() ==> no_comma_tokens((#[trigger] es[i]).tokens@),
    ensures
        elems_in(es, src, file, lo, hi),
{
    if es.len() > 0 {
        assert(elem_closed(es[es.len() - 1], src, file, elem_lo(es, es.len() - 1, lo)));
    }
}

/// Closing the last, comma-less element of a group completes the
/// element list for `[lo, hi)`.
pub proof fn lemma_elems_in_finish(
    es: Seq<GroupElem>,
    src: Seq<char>,
    file: Seq<char>,
    lo: int,
    hi: int,
    e: GroupElem,
)
    requires
        0 <= lo <= hi <= src.len(),
        elems_closed(es, src, file, lo, es.len() as int),
        e.sep is None,
        e.tokens@.len() > 0,
        seq_in(e.tokens@, src, file, elems_end(es, lo), hi),
        no_comma_tokens(e.tokens@),
        forall|i: int| 0 <= i < es.len() ==> no_comma_tokens((#[trigger] es[i]).tokens@),
    ensures
        elems_in(es.push(e), src, file, lo, hi),
{
    lemma_elems_no_comma_push(es, e);
    let es2 = es.push(e);
    assert(es2[es2.len() - 1] == e);
    assert forall|i: int|
        0 <= i < es2.len() - 1 && i < es2.len() implies elem_closed(
        #[trigger] es2[i],
        src,
        file,
        elem_lo(es2, i, lo),
    ) by {
        assert(es2[i] == es[i]);
        if i > 0 {
            assert(es2[i - 1] == es[i - 1]);
        }
        assert(elem_lo(es2, i, lo) == elem_lo(es, i, lo));
    }
    if es.len() > 0 {
        assert(es2[es.len() - 1] == es[es.len() - 1]);
    }
    assert(elem_lo(es2, es2.len() - 1, lo) == elems_end(es, lo));
}

} // verus!
