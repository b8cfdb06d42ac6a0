//! The tokenizer: a cursor over the characters of one source file that
//! classifies them into words, symbols, line breaks and recursively
//! delimited blocks and groups, with byte-accurate scopes.

use vstd::prelude::*;

use crate::coverage::lemma_seq_in_tight;
use crate::input::SourceFile;
use crate::tokens::{
    all_spaces, elems_closed, elems_end, is_comma_symbol, is_separator, is_word_char,
    lemma_elems_in_closed, lemma_elems_in_finish, lemma_elems_no_comma_push,
    lemma_elems_push_closed, lemma_no_comma_push, lemma_seq_in_grow, lemma_seq_in_push,
    no_comma_tokens, seq_end, seq_in, symbol_in, tok_end, tok_start, token_in, GroupElem, Scope,
    Symbol, Token,
};
use crate::bash_tools::push_char;

verus! {

/// Why tokenization stopped: an opened `{` or `(` whose match was
/// never found before the input ran out, reported with the opening
/// symbol's scope and the cursor position where exhaustion was
/// detected; or a `}` or `)` met where a new token was expected.
pub enum LexError {
    UnterminatedNesting { opening: Scope, at: usize },
    RogueClosingDelimiter { symbol: Symbol },
}

/// What every tokenization error means against the source text:
/// an unterminated nesting points at a real `{` or `(` at or after
/// `lo` and carries the detection offset `at_end`; a rogue closing
/// delimiter is a real `}` or `)` at or after `lo`.
pub open spec fn lex_error_in(
    e: LexError,
    src: Seq<char>,
    file: Seq<char>,
    lo: int,
    at_end: int,
) -> bool {
    match e {
        LexError::UnterminatedNesting { opening, at } => {
            &&& opening.file@ == file
            &&& opening.end == opening.start + 1
            &&& opening.end <= src.len()
            &&& lo <= opening.start
            &&& (src[opening.start as int] == '{' || src[opening.start as int] == '(')
            &&& at as int == at_end
        },
        LexError::RogueClosingDelimiter { symbol } => {
            &&& symbol_in(symbol, src, file)
            &&& (symbol.value == '}' || symbol.value == ')')
            &&& lo <= symbol.scope.start
        },
    }
}

/// The spec-level outcome of scanning a construct: the cursor
/// position right after it, the position of a rogue closing
/// delimiter, or the position of the innermost opening delimiter
/// left unmatched when the input ran out.
pub ghost enum ScanOut {
    Done { next: int },
    Rogue { at: int },
    Unterminated { opening: int },
}

/// Where the maximal word starting at `i` ends: the first following
/// position that does not hold a word character.
pub open spec fn word_end(src: Seq<char>, i: int) -> int
    decreases src.len() - i,
{
    if 0 <= i && i < src.len() && is_word_char(src[i]) {
        word_end(src, i + 1)
    } else {
        i
    }
}

/// Where the cursor stands after skipping spaces at `i`: the first
/// following non-space, never past the last character.
pub open spec fn spaces_end(src: Seq<char>, i: int) -> int
    decreases src.len() - i,
{
    if 0 <= i && i + 1 < src.len() && src[i] == ' ' {
        spaces_end(src, i + 1)
    } else {
        i
    }
}

/// The spec-level account of reading one token at position `i`: a
/// `{` or `(` must find its match, a `}` or `)` is rogue on the
/// spot, anything else is read through. This decides exactly when
/// `next` succeeds and where it leaves the cursor.
pub open spec fn scan_step(src: Seq<char>, i: int) -> ScanOut
    decreases src.len() - i, 0int,
{
    if !(0 <= i && i < src.len()) {
        ScanOut::Done { next: i }
    } else if src[i] == '{' {
        scan_block_body(src, i, i + 1)
    } else if src[i] == '(' {
        scan_group_body(src, i, i + 1)
    } else if src[i] == '}' || src[i] == ')' {
        ScanOut::Rogue { at: i }
    } else if src[i] == '\n' || is_separator(src[i]) {
        ScanOut::Done { next: i + 1 }
    } else {
        ScanOut::Done { next: word_end(src, i) }
    }
}

/// Scanning a block body from `j`, the opening `{` standing at
/// `opening`: stop at `}`, skip space runs, read one token
/// otherwise; running out of input leaves `opening` unmatched. An
/// inner failure keeps its own position, so an unterminated outcome
/// always names the innermost unmatched opening.
pub open spec fn scan_block_body(src: Seq<char>, opening: int, j: int) -> ScanOut
    decreases src.len() - j, 1int,
{
    if !(0 <= j && j + 1 < src.len()) {
        ScanOut::Unterminated { opening }
    } else if src[j] == '}' {
        ScanOut::Done { next: j + 1 }
    } else if src[j] == ' ' {
        let k = spaces_end(src, j);
        if j < k && k <= src.len() {
            scan_block_body(src, opening, k)
        } else {
            ScanOut::Unterminated { opening }
        }
    } else {
        match scan_step(src, j) {
            ScanOut::Done { next } => if j < next && next <= src.len() {
                scan_block_body(src, opening, next)
            } else {
                ScanOut::Unterminated { opening }
            },
            other => other,
        }
    }
}

/// Scanning a group body from `j`, the opening `(` standing at
/// `opening`: stop at `)`, step over commas, skip space runs, read
/// one token otherwise; running out of input leaves `opening`
/// unmatched.
pub open spec fn scan_group_body(src: Seq<char>, opening: int, j: int) -> ScanOut
    decreases src.len() - j, 1int,
{
    if !(0 <= j && j + 1 < src.len()) {
        ScanOut::Unterminated { opening }
    } else if src[j] == ')' {
        ScanOut::Done { next: j + 1 }
    } else if src[j] == ',' {
        scan_group_body(src, opening, j + 1)
    } else if src[j] == ' ' {
        let k = spaces_end(src, j);
        if j < k && k <= src.len() {
            scan_group_body(src, opening, k)
        } else {
            ScanOut::Unterminated { opening }
        }
    } else {
        match scan_step(src, j) {
            ScanOut::Done { next } => if j < next && next <= src.len() {
                scan_group_body(src, opening, next)
            } else {
                ScanOut::Unterminated { opening }
            },
            other => other,
        }
    }
}

/// The spec-level account of tokenizing the whole buffer from `i`:
/// `Done` exactly when every delimiter opened at or after `i` finds
/// its match and no rogue closer appears — the inputs `lex`
/// tokenizes successfully.
pub open spec fn scan_all(src: Seq<char>, i: int) -> ScanOut
    decreases src.len() - i, 2int,
{
    if !(0 <= i && i + 1 < src.len()) {
        ScanOut::Done { next: i }
    } else if src[i] == ' ' {
        let k = spaces_end(src, i);
        if i < k && k <= src.len() {
            scan_all(src, k)
        } else {
            ScanOut::Done { next: i }
        }
    } else {
        match scan_step(src, i) {
            ScanOut::Done { next } => if i < next && next <= src.len() {
                scan_all(src, next)
            } else {
                ScanOut::Done { next: i }
            },
            other => other,
        }
    }
}

/// The tokenizer's state: the source it reads, the characters of that
/// source with one synthetic trailing newline, a cursor, and the
/// top-level tokens produced so far.
pub struct Lexer {
    pub source_file: SourceFile,
    pub chars: Vec<char>,
    pub size: usize,
    pub index: usize,
    pub tokens: Vec<Token>,
}

/// Exactly the separator characters.
pub fn is_sep_char(c: char) -> (r: bool)
    ensures
        r == is_separator(c),
{
    c == '(' || c == ')' || c == '{' || c == '}' || c == '[' || c == ']' || c == ';' || c == ','
        || c == '.' || c == '!' || c == '|' || c == ':'
}

impl Lexer {
    /// The cursor stays inside the character buffer, whose recorded
    /// size is honest and whose last character is the synthetic
    /// newline.
    pub open spec fn wf(self) -> bool {
        &&& self.size == self.chars@.len()
        &&& self.size >= 1
        &&& self.chars@[self.size - 1] == '\n'
        &&& self.index <= self.size
    }

    /// The name of the file being tokenized.
    pub open spec fn file(self) -> Seq<char> {
        self.source_file.path@
    }

    /// The parts a step of the tokenizer never changes: the source,
    /// the character buffer and its size.
    pub open spec fn keeps_source(self, other: Lexer) -> bool {
        &&& self.source_file == other.source_file
        &&& self.chars == other.chars
        &&& self.size == other.size
    }

    pub fn new(source_file: SourceFile) -> (l: Lexer)
        ensures
            l.wf(),
            l.chars@ == source_file.content@.push('\n'),
            l.source_file == source_file,
            l.index == 0,
            l.tokens@ == Seq::<Token>::empty(),
    {
        let mut chars: Vec<char> = Vec::new();
        let n = source_file.content.len();
        let mut i: usize = 0;
        while i < n
            invariant
                i <= n,
                n == source_file.content@.len(),
                chars@ == source_file.content@.take(i as int),
            decreases n - i,
        {
            chars.push(source_file.content[i]);
            i += 1;
            proof {
                assert(chars@ =~= source_file.content@.take(i as int));
            }
        }
        proof {
            assert(chars@ =~= source_file.content@);
        }
        chars.push('\n');
        let size = chars.len();
        Lexer { source_file, chars, size, index: 0, tokens: Vec::new() }
    }

    /// A scope of this lexer's file.
    pub fn new_scope(&self, start: usize, end: usize) -> (sc: Scope)
        ensures
            sc.file == self.source_file.path,
            sc.start == start,
            sc.end == end,
    {
        Scope { file: self.source_file.path.clone(), start, end }
    }

    /// Consumes the character under the cursor as a one-character
    /// symbol.
    pub fn next_symbol(&mut self) -> (sym: Symbol)
        requires
            old(self).wf(),
            old(self).index < old(self).size,
        ensures
            final(self).wf(),
            final(self).keeps_source(*old(self)),
            final(self).tokens == old(self).tokens,
            final(self).index == old(self).index + 1,
            symbol_in(sym, final(self).chars@, final(self).file()),
            sym.value == old(self).chars@[old(self).index as int],
            sym.scope.start == old(self).index,
            sym.scope.end == old(self).index + 1,
    {
        let sym = Symbol {
            value: self.chars[self.index],
            scope: self.new_scope(self.index, self.index + 1),
        };
        self.index += 1;
        sym
    }

    /// Advances the cursor over a maximal run of plain spaces, never
    /// past the last character.
    pub fn skip_whitespace(&mut self)
        requires
            old(self).wf(),
            old(self).index < old(self).size,
        ensures
            final(self).wf(),
            final(self).keeps_source(*old(self)),
            final(self).tokens == old(self).tokens,
            old(self).index <= final(self).index < final(self).size,
            all_spaces(final(self).chars@, old(self).index as int, final(self).index as int),
            final(self).chars@[final(self).index as int] != ' ' || final(self).index + 1
                >= final(self).size,
            final(self).index as int == spaces_end(old(self).chars@, old(self).index as int),
    {
        let mut c = self.chars[self.index];
        while c == ' ' && self.index + 1 < self.size
            invariant
                self.wf(),
                self.keeps_source(*old(self)),
                self.tokens == old(self).tokens,
                old(self).index <= self.index < self.size,
                c == self.chars@[self.index as int],
                all_spaces(self.chars@, old(self).index as int, self.index as int),
                spaces_end(self.chars@, old(self).index as int) == spaces_end(
                    self.chars@,
                    self.index as int,
                ),
            decreases self.size - self.index,
        {
            self.index += 1;
            c = self.chars[self.index];
        }
    }

    /// Classifies and consumes one token starting at the cursor. On
    /// success the token is derived from exactly the characters
    /// between the old and the new cursor; a `}` or `)` under the
    /// cursor is reported as a rogue closing delimiter at that very
    /// position.
    pub fn next(&mut self) -> (r: Result<Token, LexError>)
        requires
            old(self).wf(),
            old(self).index + 1 < old(self).size,
            old(self).chars@[old(self).index as int] != ' ',
        ensures
            final(self).wf(),
            final(self).keeps_source(*old(self)),
            final(self).tokens == old(self).tokens,
            old(self).index <= final(self).index <= final(self).size,
            match r {
                Ok(t) => {
                    &&& token_in(t, final(self).chars@, final(self).file())
                    &&& tok_start(t) == old(self).index
                    &&& tok_end(t) == final(self).index
                    &&& old(self).index < final(self).index < final(self).size
                },
                Err(e) => {
                    &&& lex_error_in(
                        e,
                        final(self).chars@,
                        final(self).file(),
                        old(self).index as int,
                        final(self).index as int,
                    )
                    &&& (e is UnterminatedNesting ==> final(self).index == final(self).size - 1)
                },
            },
            match scan_step(old(self).chars@, old(self).index as int) {
                ScanOut::Done { next } => r is Ok && final(self).index == next,
                ScanOut::Rogue { at } => (r matches Err(
                    LexError::RogueClosingDelimiter { symbol },
                ) && symbol.scope.start == at),
                ScanOut::Unterminated { opening } => (r matches Err(
                    LexError::UnterminatedNesting { opening: op, .. },
                ) && op.start == opening),
            },
        decreases old(self).size - old(self).index, 1int,
    {
        let first = self.chars[self.index];

        if first == '{' {
            return self.next_block();
        }
        if first == '(' {
            return self.next_group(',', ')');
        }
        if first == '}' || first == ')' {
            let symbol = self.next_symbol();
            return Err(LexError::RogueClosingDelimiter { symbol });
        }
        if first == '\n' {
            let start = self.index;
            let scope = self.new_scope(start, start + 1);
            self.index += 1;
            return Ok(Token::new_line_break(scope));
        }
        if is_sep_char(first) {
            let start = self.index;
            let scope = self.new_scope(start, start + 1);
            self.index += 1;
            return Ok(Token::new_symbol(first, scope));
        }
        let mut out = String::new();
        let start = self.index;
        let mut stop = false;
        while !stop && self.index < self.size
            invariant
                self.wf(),
                self.keeps_source(*old(self)),
                self.tokens == old(self).tokens,
                start == old(self).index,
                start <= self.index <= self.size,
                out@ == self.chars@.subrange(start as int, self.index as int),
                forall|i: int| start <= i < self.index ==> is_word_char(#[trigger] self.chars@[i]),
                stop ==> (self.index < self.size && !is_word_char(
                    self.chars@[self.index as int],
                )),
                word_end(self.chars@, start as int) == word_end(self.chars@, self.index as int),
            decreases self.size - self.index, (if stop { 0int } else { 1int }),
        {
            let c = self.chars[self.index];
            if c == '\n' || is_sep_char(c) || c == ' ' {
                stop = true;
            } else {
                push_char(&mut out, c);
                proof {
                    assert(out@ =~= self.chars@.subrange(start as int, self.index as int + 1));
                }
                self.index += 1;
            }
        }
        Ok(Token::new_word(out, self.new_scope(start, self.index)))
    }

    /// Consumes a `{`, the tokens of the block's body, and the
    /// matching `}`; fails with an unterminated nesting anchored at
    /// the `{` when the input runs out first.
    pub fn next_block(&mut self) -> (r: Result<Token, LexError>)
        requires
            old(self).wf(),
            old(self).index + 1 < old(self).size,
            old(self).chars@[old(self).index as int] == '{',
        ensures
            final(self).wf(),
            final(self).keeps_source(*old(self)),
            final(self).tokens == old(self).tokens,
            old(self).index <= final(self).index <= final(self).size,
            match r {
                Ok(t) => {
                    &&& t is Block
                    &&& token_in(t, final(self).chars@, final(self).file())
                    &&& tok_start(t) == old(self).index
                    &&& tok_end(t) == final(self).index
                    &&& old(self).index < final(self).index < final(self).size
                },
                Err(e) => {
                    &&& lex_error_in(
                        e,
                        final(self).chars@,
                        final(self).file(),
                        old(self).index as int,
                        final(self).index as int,
                    )
                    &&& (e is UnterminatedNesting ==> final(self).index == final(self).size - 1)
                },
            },
            match scan_block_body(old(self).chars@, old(self).index as int, old(self).index + 1) {
                ScanOut::Done { next } => r is Ok && final(self).index == next,
                ScanOut::Rogue { at } => (r matches Err(
                    LexError::RogueClosingDelimiter { symbol },
                ) && symbol.scope.start == at),
                ScanOut::Unterminated { opening } => (r matches Err(
                    LexError::UnterminatedNesting { opening: op, .. },
                ) && op.start == opening),
            },
        decreases old(self).size - old(self).index, 0int,
    {
        let opening = self.next_symbol();
        let mut tokens: Vec<Token> = Vec::new();

        while self.index + 1 < self.size
            invariant
                self.wf(),
                self.keeps_source(*old(self)),
                self.tokens == old(self).tokens,
                old(self).index + 1 <= self.index < self.size,
                symbol_in(opening, self.chars@, self.file()),
                opening.value == '{',
                opening.scope.start == old(self).index,
                opening.scope.end == old(self).index + 1,
                seq_in(
                    tokens@,
                    self.chars@,
                    self.file(),
                    old(self).index + 1,
                    self.index as int,
                ),
                scan_block_body(self.chars@, old(self).index as int, old(self).index + 1)
                    == scan_block_body(self.chars@, old(self).index as int, self.index as int),
            decreases self.size - self.index,
        {
            let c = self.chars[self.index];
            if c == '}' {
                let closing = self.next_symbol();
                return Ok(Token::new_block(opening, closing, tokens));
            }
            if c != ' ' {
                let ghost mid = self.index as int;
                match self.next() {
                    Ok(t) => {
                        proof {
                            lemma_seq_in_push(
                                tokens@,
                                self.chars@,
                                self.file(),
                                old(self).index + 1,
                                mid,
                                self.index as int,
                                t,
                            );
                        }
                        tokens.push(t);
                    },
                    Err(e) => {
                        return Err(e);
                    },
                }
            } else {
                let ghost mid = self.index as int;
                self.skip_whitespace();
                proof {
                    lemma_seq_in_grow(
                        tokens@,
                        self.chars@,
                        self.file(),
                        old(self).index + 1,
                        mid,
                        self.index as int,
                    );
                }
            }
        }
        Err(LexError::UnterminatedNesting { opening: opening.scope, at: self.index })
    }

    /// Consumes the `)` under the cursor and completes the group that
    /// the opening `(` at `entry` started, closing a non-empty token
    /// accumulator into a final element without a separator.
    fn finish_group(
        &mut self,
        opening: Symbol,
        elems: Vec<GroupElem>,
        tokens: Vec<Token>,
        Ghost(entry): Ghost<int>,
    ) -> (r: Token)
        requires
            old(self).wf(),
            old(self).index < old(self).size,
            old(self).chars@[old(self).index as int] == ')',
            symbol_in(opening, old(self).chars@, old(self).file()),
            opening.value == '(',
            opening.scope.start == entry,
            opening.scope.end == entry + 1,
            0 <= entry,
            entry + 1 <= elems_end(elems@, entry + 1) <= old(self).index,
            elems_closed(
                elems@,
                old(self).chars@,
                old(self).file(),
                entry + 1,
                elems@.len() as int,
            ),
            forall|i: int| 0 <= i < elems@.len() ==> no_comma_tokens((#[trigger] elems@[i]).tokens@),
            no_comma_tokens(tokens@),
            seq_in(
                tokens@,
                old(self).chars@,
                old(self).file(),
                elems_end(elems@, entry + 1),
                old(self).index as int,
            ),
        ensures
            final(self).wf(),
            final(self).keeps_source(*old(self)),
            final(self).tokens == old(self).tokens,
            final(self).index == old(self).index + 1,
            r is Group,
            token_in(r, final(self).chars@, final(self).file()),
            tok_start(r) == entry,
            tok_end(r) == old(self).index + 1,
    {
        let closing_sym = self.next_symbol();
        let mut elems = elems;
        if tokens.len() > 0 {
            let done = GroupElem { tokens, sep: None };
            proof {
                lemma_elems_in_finish(
                    elems@,
                    self.chars@,
                    self.file(),
                    entry + 1,
                    closing_sym.scope.start as int,
                    done,
                );
            }
            elems.push(done);
            Token::new_group(opening, closing_sym, elems)
        } else {
            proof {
                lemma_elems_in_closed(
                    elems@,
                    self.chars@,
                    self.file(),
                    entry + 1,
                    closing_sym.scope.start as int,
                );
            }
            Token::new_group(opening, closing_sym, elems)
        }
    }

    /// Consumes a `(`, the comma-separated elements of the group, and
    /// the matching `)`; content after the last comma becomes a final
    /// element without a separator, a trailing comma leaves none.
    /// Fails with an unterminated nesting anchored at the `(` when
    /// the input runs out first.
    #[verifier::rlimit(100)]
    pub fn next_group(&mut self, sep: char, closing: char) -> (r: Result<Token, LexError>)
        requires
            old(self).wf(),
            old(self).index + 1 < old(self).size,
            old(self).chars@[old(self).index as int] == '(',
            sep == ',',
            closing == ')',
        ensures
            final(self).wf(),
            final(self).keeps_source(*old(self)),
            final(self).tokens == old(self).tokens,
            old(self).index <= final(self).index <= final(self).size,
            match r {
                Ok(t) => {
                    &&& t is Group
                    &&& token_in(t, final(self).chars@, final(self).file())
                    &&& tok_start(t) == old(self).index
                    &&& tok_end(t) == final(self).index
                    &&& old(self).index < final(self).index < final(self).size
                },
                Err(e) => {
                    &&& lex_error_in(
                        e,
                        final(self).chars@,
                        final(self).file(),
                        old(self).index as int,
                        final(self).index as int,
                    )
                    &&& (e is UnterminatedNesting ==> final(self).index == final(self).size - 1)
                },
            },
            match scan_group_body(old(self).chars@, old(self).index as int, old(self).index + 1) {
                ScanOut::Done { next } => r is Ok && final(self).index == next,
                ScanOut::Rogue { at } => (r matches Err(
                    LexError::RogueClosingDelimiter { symbol },
                ) && symbol.scope.start == at),
                ScanOut::Unterminated { opening } => (r matches Err(
                    LexError::UnterminatedNesting { opening: op, .. },
                ) && op.start == opening),
            },
        decreases old(self).size - old(self).index, 0int,
    {
        let opening = self.next_symbol();
        let mut elems: Vec<GroupElem> = Vec::new();
        let mut tokens: Vec<Token> = Vec::new();

        while self.index + 1 < self.size
            invariant
                sep == ',',
                closing == ')',
                scan_group_body(self.chars@, old(self).index as int, old(self).index + 1)
                    == scan_group_body(self.chars@, old(self).index as int, self.index as int),
                self.wf(),
                self.keeps_source(*old(self)),
                self.tokens == old(self).tokens,
                old(self).index + 1 <= self.index < self.size,
                symbol_in(opening, self.chars@, self.file()),
                opening.value == '(',
                opening.scope.start == old(self).index,
                opening.scope.end == old(self).index + 1,
                elems_closed(
                    elems@,
                    self.chars@,
                    self.file(),
                    old(self).index + 1,
                    elems@.len() as int,
                ),
                old(self).index + 1 <= elems_end(elems@, old(self).index + 1) <= self.index,
                seq_in(
                    tokens@,
                    self.chars@,
                    self.file(),
                    elems_end(elems@, old(self).index + 1),
                    self.index as int,
                ),
                no_comma_tokens(tokens@),
                forall|i: int|
                    0 <= i < elems@.len() ==> no_comma_tokens((#[trigger] elems@[i]).tokens@),
            decreases self.size - self.index,
        {
            let c = self.chars[self.index];
            if c == closing {
                let t = self.finish_group(opening, elems, tokens, Ghost(old(self).index as int));
                return Ok(t);
            }
            if c == sep {
                let sep_sym = self.next_symbol();
                let done = GroupElem { tokens, sep: Some(sep_sym) };
                proof {
                    lemma_elems_push_closed(
                        elems@,
                        self.chars@,
                        self.file(),
                        old(self).index + 1,
                        done,
                    );
                    lemma_elems_no_comma_push(elems@, done);
                }
                elems.push(done);
                tokens = Vec::new();
            } else if c != ' ' {
                let ghost mid = self.index as int;
                match self.next() {
                    Ok(t) => {
                        proof {
                            lemma_seq_in_push(
                                tokens@,
                                self.chars@,
                                self.file(),
                                elems_end(elems@, old(self).index + 1),
                                mid,
                                self.index as int,
                                t,
                            );
                            assert(!is_comma_symbol(t));
                            lemma_no_comma_push(tokens@, t);
                        }
                        tokens.push(t);
                    },
                    Err(e) => {
                        return Err(e);
                    },
                }
            } else {
                let ghost mid = self.index as int;
                self.skip_whitespace();
                proof {
                    lemma_seq_in_grow(
                        tokens@,
                        self.chars@,
                        self.file(),
                        elems_end(elems@, old(self).index + 1),
                        mid,
                        self.index as int,
                    );
                }
            }
        }
        Err(LexError::UnterminatedNesting { opening: opening.scope, at: self.index })
    }

    /// Tokenizes the whole source from the start: on success the
    /// produced top-level tokens claim, in order and without overlap,
    /// every non-space character of the input, the synthetic trailing
    /// newline excluded.
    pub fn lex(&mut self) -> (r: Result<(), LexError>)
        requires
            old(self).wf(),
            old(self).index == 0,
            old(self).tokens@.len() == 0,
        ensures
            final(self).wf(),
            final(self).keeps_source(*old(self)),
            match r {
                Ok(u) => {
                    &&& final(self).index == final(self).size - 1
                    &&& seq_in(
                        final(self).tokens@,
                        final(self).chars@,
                        final(self).file(),
                        0,
                        final(self).size - 1,
                    )
                },
                Err(e) => {
                    &&& lex_error_in(
                        e,
                        final(self).chars@,
                        final(self).file(),
                        0,
                        final(self).index as int,
                    )
                    &&& (e is UnterminatedNesting ==> final(self).index == final(self).size - 1)
                    &&& seq_in(
                        final(self).tokens@,
                        final(self).chars@,
                        final(self).file(),
                        0,
                        seq_end(final(self).tokens@, 0),
                    )
                },
            },
            match scan_all(old(self).chars@, 0) {
                ScanOut::Done { next } => r is Ok,
                ScanOut::Rogue { at } => (r matches Err(
                    LexError::RogueClosingDelimiter { symbol },
                ) && symbol.scope.start == at),
                ScanOut::Unterminated { opening } => (r matches Err(
                    LexError::UnterminatedNesting { opening: op, .. },
                ) && op.start == opening),
            },
    {
        while self.index + 1 < self.size
            invariant
                self.wf(),
                self.keeps_source(*old(self)),
                self.index < self.size,
                seq_in(self.tokens@, self.chars@, self.file(), 0, self.index as int),
                scan_all(self.chars@, 0) == scan_all(self.chars@, self.index as int),
            decreases self.size - self.index,
        {
            let c = self.chars[self.index];
            if c != ' ' {
                let ghost mid = self.index as int;
                match self.next() {
                    Ok(word) => {
                        proof {
                            lemma_seq_in_push(
                                self.tokens@,
                                self.chars@,
                                self.file(),
                                0,
                                mid,
                                self.index as int,
                                word,
                            );
                        }
                        self.tokens.push(word);
                    },
                    Err(e) => {
                        proof {
                            lemma_seq_in_tight(self.tokens@, self.chars@, self.file(), 0, mid);
                        }
                        return Err(e);
                    },
                }
            } else {
                let ghost mid = self.index as int;
                self.skip_whitespace();
                proof {
                    lemma_seq_in_grow(
                        self.tokens@,
                        self.chars@,
                        self.file(),
                        0,
                        mid,
                        self.index as int,
                    );
                }
            }
        }
        Ok(())
    }
}

} // verus!
