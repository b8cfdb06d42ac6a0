//! The coverage laws of tokenization: inside the range a well-placed
//! token sequence covers, the positions claimed by the token trees are
//! exactly the non-space positions, each claimed by one token only.

use vstd::prelude::*;

use crate::tokens::{
    elem_lo, elems_closed, elems_end, elems_in, is_word_char, seq_end, seq_in, tok_end, tok_start,
    token_in, GroupElem, Token,
};

verus! {

/// Position `k` is one of the characters this token was derived from:
/// its own span for a leaf, and for a block or group the delimiters
/// plus whatever its children claim.
pub open spec fn tok_claims(t: Token, k: int) -> bool
    decreases t, 0int,
{
    match t {
        Token::Word(w) => w.scope.start <= k < w.scope.end,
        Token::Symbol(s) => s.scope.start <= k < s.scope.end,
        Token::LineBreak(lb) => lb.scope.start <= k < lb.scope.end,
        Token::Block(b) => k == b.opening.scope.start || k == b.closing.scope.start || seq_claims(
            b.tokens@,
            k,
        ),
        Token::Group(g) => k == g.opening.scope.start || k == g.closing.scope.start
            || elems_claims(g.elems@, k),
    }
}

/// Some token of the sequence claims position `k`.
pub open spec fn seq_claims(ts: Seq<Token>, k: int) -> bool
    decreases ts, 2int,
{
    exists|i: int| 0 <= i < ts.len() && tok_claims(#[trigger] ts[i], k)
}

/// Some element of the group claims position `k`: its comma, or one
/// of its tokens.
pub open spec fn elems_claims(es: Seq<GroupElem>, k: int) -> bool
    decreases es, 2int,
{
    exists|i: int| 0 <= i < es.len() && elem_claims(#[trigger] es[i], k)
}

/// The element's comma stands at `k`, or one of its tokens claims it.
pub open spec fn elem_claims(e: GroupElem, k: int) -> bool
    decreases e, 1int,
{
    (e.sep is Some && k == e.sep->Some_0.scope.start) || seq_claims(e.tokens@, k)
}

/// A well-placed token spans at least one character, inside the
/// source.
pub proof fn lemma_token_span(t: Token, src: Seq<char>, file: Seq<char>)
    requires
        token_in(t, src, file),
    ensures
        0 <= tok_start(t) < tok_end(t) <= src.len(),
{
}

/// The start of a group element never lies before the group body's
/// start.
proof fn lemma_elem_lo_lb(
    es: Seq<GroupElem>,
    src: Seq<char>,
    file: Seq<char>,
    lo: int,
    n: int,
    i: int,
)
    requires
        elems_closed(es, src, file, lo, n),
        0 <= i <= n,
        n <= es.len(),
    ensures
        lo <= elem_lo(es, i, lo),
    decreases i,
{
    if i > 0 {
        lemma_elem_lo_lb(es, src, file, lo, n, i - 1);
        assert(crate::tokens::elem_closed(es[i - 1], src, file, elem_lo(es, i - 1, lo)));
    }
}

/// The starts of the comma-closed group elements come in order.
proof fn lemma_elem_lo_mono(
    es: Seq<GroupElem>,
    src: Seq<char>,
    file: Seq<char>,
    lo: int,
    n: int,
    i: int,
    j: int,
)
    requires
        elems_closed(es, src, file, lo, n),
        0 <= i <= j <= n,
        n <= es.len(),
    ensures
        elem_lo(es, i, lo) <= elem_lo(es, j, lo),
    decreases j - i,
{
    if i < j {
        lemma_elem_lo_mono(es, src, file, lo, n, i, j - 1);
        assert(crate::tokens::elem_closed(es[j - 1], src, file, elem_lo(es, j - 1, lo)));
    }
}

/// A claimed position lies inside the claiming token's span and is
/// never a space.
pub proof fn lemma_tok_claims_nonspace(t: Token, src: Seq<char>, file: Seq<char>, k: int)
    requires
        token_in(t, src, file),
        tok_claims(t, k),
    ensures
        tok_start(t) <= k < tok_end(t),
        src[k] != ' ',
    decreases t, 0int,
{
    match t {
        Token::Word(w) => {
            assert(is_word_char(src[k]));
        },
        Token::Symbol(s) => {},
        Token::LineBreak(lb) => {},
        Token::Block(b) => {
            if k != b.opening.scope.start && k != b.closing.scope.start {
                lemma_seq_claims_nonspace(
                    b.tokens@,
                    src,
                    file,
                    b.opening.scope.end as int,
                    b.closing.scope.start as int,
                    k,
                );
            }
        },
        Token::Group(g) => {
            if k != g.opening.scope.start && k != g.closing.scope.start {
                lemma_elems_claims_nonspace(
                    g.elems@,
                    src,
                    file,
                    g.opening.scope.end as int,
                    g.closing.scope.start as int,
                    k,
                );
            }
        },
    }
}

/// A position claimed by a well-placed sequence lies inside its range
/// and is never a space.
pub proof fn lemma_seq_claims_nonspace(
    ts: Seq<Token>,
    src: Seq<char>,
    file: Seq<char>,
    lo: int,
    hi: int,
    k: int,
)
    requires
        seq_in(ts, src, file, lo, hi),
        seq_claims(ts, k),
    ensures
        lo <= k < hi,
        src[k] != ' ',
    decreases ts, 1int,
{
    let i = choose|i: int| 0 <= i < ts.len() && tok_claims(#[trigger] ts[i], k);
    lemma_tok_claims_nonspace(ts[i], src, file, k);
}

/// A position claimed by a complete element list lies inside its
/// range and is never a space.
#[verifier::rlimit(60)]
pub proof fn lemma_elems_claims_nonspace(
    es: Seq<GroupElem>,
    src: Seq<char>,
    file: Seq<char>,
    lo: int,
    hi: int,
    k: int,
)
    requires
        elems_in(es, src, file, lo, hi),
        elems_claims(es, k),
    ensures
        lo <= k < hi,
        src[k] != ' ',
    decreases es, 1int,
{
    let i = choose|i: int| 0 <= i < es.len() && elem_claims(#[trigger] es[i], k);
    let last = es.len() - 1;
    if es[last].sep is Some {
        assert(crate::tokens::elem_closed(es[i], src, file, elem_lo(es, i, lo)));
        lemma_elem_lo_lb(es, src, file, lo, es.len() as int, i);
        lemma_elem_lo_mono(es, src, file, lo, es.len() as int, i + 1, es.len() as int);
        let s = es[i].sep->Some_0;
        if k != s.scope.start {
            lemma_seq_claims_nonspace(
                es[i].tokens@,
                src,
                file,
                elem_lo(es, i, lo),
                s.scope.start as int,
                k,
            );
        }
    } else {
        if i < last {
            assert(crate::tokens::elem_closed(es[i], src, file, elem_lo(es, i, lo)));
            lemma_elem_lo_lb(es, src, file, lo, last, i);
            lemma_elem_lo_mono(es, src, file, lo, last, i + 1, last);
            let s = es[i].sep->Some_0;
            if k != s.scope.start {
                lemma_seq_claims_nonspace(
                    es[i].tokens@,
                    src,
                    file,
                    elem_lo(es, i, lo),
                    s.scope.start as int,
                    k,
                );
            }
        } else {
            lemma_elem_lo_lb(es, src, file, lo, last, last);
            lemma_seq_claims_nonspace(
                es[last].tokens@,
                src,
                file,
                elem_lo(es, last, lo),
                hi,
                k,
            );
        }
    }
}

/// Inside a well-placed token's span, every non-space position is
/// claimed.
pub proof fn lemma_tok_covers(t: Token, src: Seq<char>, file: Seq<char>, k: int)
    requires
        token_in(t, src, file),
        tok_start(t) <= k < tok_end(t),
        src[k] != ' ',
    ensures
        tok_claims(t, k),
    decreases t, 0int, 0int,
{
    match t {
        Token::Word(w) => {},
        Token::Symbol(s) => {},
        Token::LineBreak(lb) => {},
        Token::Block(b) => {
            if k != b.opening.scope.start && k != b.closing.scope.start {
                lemma_seq_covers(
                    b.tokens@,
                    src,
                    file,
                    b.opening.scope.end as int,
                    b.closing.scope.start as int,
                    k,
                );
            }
        },
        Token::Group(g) => {
            if k != g.opening.scope.start && k != g.closing.scope.start {
                lemma_elems_covers(
                    g.elems@,
                    src,
                    file,
                    g.opening.scope.end as int,
                    g.closing.scope.start as int,
                    k,
                );
            }
        },
    }
}

/// Inside the range of a well-placed sequence, every non-space
/// position is claimed.
pub proof fn lemma_seq_covers(
    ts: Seq<Token>,
    src: Seq<char>,
    file: Seq<char>,
    lo: int,
    hi: int,
    k: int,
)
    requires
        seq_in(ts, src, file, lo, hi),
        lo <= k < hi,
        src[k] != ' ',
    ensures
        seq_claims(ts, k),
    decreases ts, 2int, 0int,
{
    if ts.len() == 0 {
        assert(false);
    } else if k >= tok_end(ts[ts.len() - 1]) {
        assert(false);
    } else {
        lemma_seq_covers_upto(ts, src, file, lo, hi, ts.len() as int, k);
    }
}

proof fn lemma_seq_covers_upto(
    ts: Seq<Token>,
    src: Seq<char>,
    file: Seq<char>,
    lo: int,
    hi: int,
    n: int,
    k: int,
)
    requires
        seq_in(ts, src, file, lo, hi),
        0 < n <= ts.len(),
        lo <= k < tok_end(ts[n - 1]),
        src[k] != ' ',
    ensures
        seq_claims(ts, k),
    decreases ts, 1int, n,
{
    lemma_token_span(ts[n - 1], src, file);
    if k >= tok_start(ts[n - 1]) {
        lemma_tok_covers(ts[n - 1], src, file, k);
        assert(seq_claims(ts, k));
    } else if n == 1 {
        assert(false);
    } else if k >= tok_end(ts[n - 2]) {
        assert(false);
    } else {
        lemma_seq_covers_upto(ts, src, file, lo, hi, n - 1, k);
    }
}

/// Inside the range of a complete element list, every non-space
/// position is claimed.
#[verifier::rlimit(100)]
pub proof fn lemma_elems_covers(
    es: Seq<GroupElem>,
    src: Seq<char>,
    file: Seq<char>,
    lo: int,
    hi: int,
    k: int,
)
    requires
        elems_in(es, src, file, lo, hi),
        lo <= k < hi,
        src[k] != ' ',
    ensures
        elems_claims(es, k),
    decreases es, 2int, 0int,
{
    if es.len() == 0 {
        assert(false);
    } else if es[es.len() - 1].sep is Some {
        if k >= elems_end(es, lo) {
            assert(false);
        } else {
            lemma_elems_covers_upto(es, src, file, lo, es.len() as int, k);
        }
    } else {
        let last = es.len() - 1;
        if k >= elem_lo(es, last, lo) {
            lemma_seq_covers(es[last].tokens@, src, file, elem_lo(es, last, lo), hi, k);
            assert(elem_claims(es[last], k));
            assert(elems_claims(es, k));
        } else if es.len() == 1 {
            assert(false);
        } else {
            lemma_elems_covers_upto(es, src, file, lo, last, k);
        }
    }
}

/// Inside the span of one comma-closed element, every non-space
/// position is claimed by the element.
proof fn lemma_elem_covers(e: GroupElem, src: Seq<char>, file: Seq<char>, lo: int, k: int)
    requires
        crate::tokens::elem_closed(e, src, file, lo),
        lo <= k < e.sep->Some_0.scope.end,
        src[k] != ' ',
    ensures
        elem_claims(e, k),
    decreases e, 0int, 0int,
{
    let s = e.sep->Some_0;
    if k != s.scope.start {
        lemma_seq_covers(e.tokens@, src, file, lo, s.scope.start as int, k);
    }
}

#[verifier::rlimit(100)]
proof fn lemma_elems_covers_upto(
    es: Seq<GroupElem>,
    src: Seq<char>,
    file: Seq<char>,
    lo: int,
    n: int,
    k: int,
)
    requires
        elems_closed(es, src, file, lo, n),
        0 < n <= es.len(),
        lo <= k < elem_lo(es, n, lo),
        src[k] != ' ',
    ensures
        elems_claims(es, k),
    decreases es, 1int, n,
{
    assert(crate::tokens::elem_closed(es[n - 1], src, file, elem_lo(es, n - 1, lo)));
    if k >= elem_lo(es, n - 1, lo) {
        lemma_elem_covers(es[n - 1], src, file, elem_lo(es, n - 1, lo), k);
        assert(elems_claims(es, k));
    } else if n == 1 {
        assert(false);
    } else {
        lemma_elems_covers_upto(es, src, file, lo, n - 1, k);
    }
}

/// Well-placed tokens keep their order: an earlier token ends before
/// a later one begins.
#[verifier::rlimit(60)]
pub proof fn lemma_seq_in_order(
    ts: Seq<Token>,
    src: Seq<char>,
    file: Seq<char>,
    lo: int,
    hi: int,
    i: int,
    j: int,
)
    requires
        seq_in(ts, src, file, lo, hi),
        0 <= i < j < ts.len(),
    ensures
        tok_end(ts[i]) <= tok_start(ts[j]),
    decreases j - i,
{
    if i + 1 < j {
        lemma_seq_in_order(ts, src, file, lo, hi, i, j - 1);
        lemma_token_span(ts[j - 1], src, file);
    }
}

/// A well-placed sequence is well-placed on the exact range its own
/// tokens reach: the trailing spaces of the wider range can be let
/// go.
pub proof fn lemma_seq_in_tight(
    ts: Seq<Token>,
    src: Seq<char>,
    file: Seq<char>,
    lo: int,
    hi: int,
)
    requires
        seq_in(ts, src, file, lo, hi),
    ensures
        seq_in(ts, src, file, lo, seq_end(ts, lo)),
{
    if ts.len() > 0 {
        let hi2 = tok_end(ts[ts.len() - 1]);
        lemma_token_span(ts[ts.len() - 1], src, file);
        assert forall|i: int|
            0 <= i < ts.len() implies lo <= tok_start(#[trigger] ts[i]) && tok_end(ts[i])
            <= hi2 by {
            if i < ts.len() - 1 {
                lemma_seq_in_order(ts, src, file, lo, hi, i, ts.len() - 1);
            }
        }
    }
}

/// The coverage law for a tokenized range: a position is claimed by
/// the token trees exactly when it holds a non-space character, and
/// no position is claimed by two top-level tokens. With `seq_in`
/// established by `Lexer::lex` for the whole input, the scopes of the
/// produced tokens therefore reconstruct, in traversal order, a set
/// of disjoint ranges whose union is exactly the non-space input.
pub proof fn lemma_tokens_cover_range(
    ts: Seq<Token>,
    src: Seq<char>,
    file: Seq<char>,
    lo: int,
    hi: int,
    k: int,
)
    requires
        seq_in(ts, src, file, lo, hi),
        lo <= k < hi,
    ensures
        seq_claims(ts, k) <==> src[k] != ' ',
        forall|i: int, j: int|
            0 <= i < j < ts.len() ==> !(tok_claims(#[trigger] ts[i], k) && tok_claims(
                #[trigger] ts[j],
                k,
            )),
{
    if src[k] != ' ' {
        lemma_seq_covers(ts, src, file, lo, hi, k);
    }
    if seq_claims(ts, k) {
        lemma_seq_claims_nonspace(ts, src, file, lo, hi, k);
    }
    assert forall|i: int, j: int|
        0 <= i < j < ts.len() implies !(tok_claims(#[trigger] ts[i], k) && tok_claims(
        #[trigger] ts[j],
        k,
    )) by {
        if tok_claims(ts[i], k) && tok_claims(ts[j], k) {
            lemma_tok_claims_nonspace(ts[i], src, file, k);
            lemma_tok_claims_nonspace(ts[j], src, file, k);
            lemma_seq_in_order(ts, src, file, lo, hi, i, j);
        }
    }
}

} // verus!
