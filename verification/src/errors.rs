//! The diagnostic renderer: recomputes line and column information
//! from flat character offsets and renders gutter-and-caret excerpts
//! of the offending source line.

use vstd::prelude::*;
use vstd::string::StringExecFns;

use crate::bash_tools::{
    char_rep, color, color_seq, dec_rep, lemma_dec_rep_len, push_char, repeat_char,
    usize_to_string, BLUE, BOLD, CYAN, GREEN, LIGHT_WHITE, PLAIN, RED, RESET_COLOR,
};
use crate::sources::{source_lookup, Sources};
use crate::tokens::{describe_spec, Scope, Token};

verus! {

/// A secondary excerpt appended to a diagnostic: a suggestion shown
/// as if it stood on the given line.
pub struct Help {
    pub message: String,
    pub source: String,
    pub line: usize,
}

/// A diagnostic asked for a source name that was never registered: a
/// contract violation in the host system, not malformed input.
pub enum RenderError {
    UnresolvedSource,
}

/// How many newline characters stand strictly before position `k`.
pub open spec fn newlines_upto(src: Seq<char>, k: int) -> nat
    decreases k,
{
    if k <= 0 {
        0nat
    } else {
        newlines_upto(src, k - 1) + (if k - 1 < src.len() && src[k - 1] == '\n' {
            1nat
        } else {
            0nat
        })
    }
}

/// The 1-based number of the physical line an offset lies on: one
/// more than the newlines counted up to (but not past) the offset.
pub open spec fn line_of(src: Seq<char>, pos: int) -> nat {
    1 + newlines_upto(
        src,
        if pos + 1 <= src.len() {
            pos + 1
        } else {
            src.len() as int
        },
    )
}

/// `[ls, le)` is exactly the extent of the 1-based physical line
/// `line` of `src`, its trailing newline excluded.
pub open spec fn line_bounds(src: Seq<char>, line: nat, ls: int, le: int) -> bool {
    &&& 0 <= ls <= le <= src.len()
    &&& newlines_upto(src, ls) == line - 1
    &&& ls == 0 || src[ls - 1] == '\n'
    &&& forall|i: int| ls <= i < le ==> src[i] != '\n'
    &&& le == src.len() || src[le] == '\n'
}

/// Counting newlines over a longer prefix never counts fewer.
pub proof fn lemma_newlines_upto_monotone(src: Seq<char>, a: int, b: int)
    requires
        a <= b,
    ensures
        newlines_upto(src, a) <= newlines_upto(src, b),
    decreases b - a,
{
    if a < b {
        lemma_newlines_upto_monotone(src, a, b - 1);
    }
}

/// The line number is monotonically non-decreasing as the offset
/// increases.
pub proof fn lemma_line_of_monotone(src: Seq<char>, pos1: int, pos2: int)
    requires
        pos1 <= pos2,
    ensures
        line_of(src, pos1) <= line_of(src, pos2),
{
    let k1: int = if pos1 + 1 <= src.len() {
        pos1 + 1
    } else {
        src.len() as int
    };
    let k2: int = if pos2 + 1 <= src.len() {
        pos2 + 1
    } else {
        src.len() as int
    };
    lemma_newlines_upto_monotone(src, k1, k2);
}

proof fn lemma_no_newlines(src: Seq<char>, pos: int, k: int)
    requires
        k <= pos + 1,
        forall|i: int| 0 <= i <= pos && i < src.len() ==> src[i] != '\n',
    ensures
        newlines_upto(src, k) == 0,
    decreases k,
{
    if k > 0 {
        lemma_no_newlines(src, pos, k - 1);
    }
}

/// The line number is 1 for any offset on the first physical line.
pub proof fn lemma_line_of_first_line(src: Seq<char>, pos: int)
    requires
        forall|i: int| 0 <= i <= pos && i < src.len() ==> src[i] != '\n',
    ensures
        line_of(src, pos) == 1,
{
    let k: int = if pos + 1 <= src.len() {
        pos + 1
    } else {
        src.len() as int
    };
    lemma_no_newlines(src, pos, k);
}

/// The 1-based line number of the offset `pos`, by a linear scan.
pub fn get_line(src: &Vec<char>, pos: usize) -> (line: usize)
    requires
        src@.len() < usize::MAX,
    ensures
        line as nat == line_of(src@, pos as int),
{
    let n = src.len();
    let hi = if pos < n {
        pos + 1
    } else {
        n
    };
    let mut line: usize = 1;
    let mut i: usize = 0;
    while i < hi
        invariant
            hi <= n,
            n == src@.len(),
            n < usize::MAX,
            i <= hi,
            line as nat == 1 + newlines_upto(src@, i as int),
            line as nat <= i + 1,
        decreases hi - i,
    {
        if src[i] == '\n' {
            line += 1;
        }
        i += 1;
    }
    line
}

/// The extent of the 1-based physical line `line`, its trailing
/// newline excluded, by a linear scan.
pub fn get_line_src(src: &Vec<char>, line: usize) -> (r: (usize, usize))
    requires
        1 <= line,
        line <= 1 + newlines_upto(src@, src@.len() as int),
    ensures
        line_bounds(src@, line as nat, r.0 as int, r.1 as int),
{
    let n = src.len();
    let mut line_start: usize = 0;
    let mut cline: usize = 1;
    let mut i: usize = 0;
    while i < n && cline < line
        invariant
            i <= n,
            n == src@.len(),
            1 <= cline <= line,
            line <= 1 + newlines_upto(src@, n as int),
            newlines_upto(src@, i as int) == cline - 1,
            line_start <= i,
            line_start == 0 || src@[line_start - 1] == '\n',
            newlines_upto(src@, line_start as int) == cline - 1,
        decreases n - i,
    {
        if src[i] == '\n' {
            cline += 1;
            line_start = i + 1;
        }
        i += 1;
    }
    proof {
        if i == n && cline < line {
            assert(newlines_upto(src@, n as int) == cline - 1);
        }
    }
    let mut j = line_start;
    while j < n && src[j] != '\n'
        invariant
            n == src@.len(),
            line_start <= j <= n,
            forall|k: int| line_start <= k < j ==> src@[k] != '\n',
        decreases n - j,
    {
        j += 1;
    }
    (line_start, j)
}

/// The view of the reset escape sequence.
pub open spec fn reset_seq() -> Seq<char> {
    "\u{001b}[0;0m"@
}

/// `s` padded on the left with spaces up to width `w`.
pub open spec fn pad_to(s: Seq<char>, w: nat) -> Seq<char> {
    if s.len() < w {
        char_rep(' ', (w - s.len()) as nat) + s
    } else {
        s
    }
}

/// The view of one gutter cell: a right-aligned line-number label of
/// width five, or an all-blank label, followed by a bar.
pub open spec fn gutter_seq(line: Option<usize>) -> Seq<char> {
    match line {
        Some(l) => color_seq(1, 34) + pad_to(dec_rep(l as nat), 5) + " | "@ + reset_seq(),
        None => color_seq(1, 34) + "      | "@ + reset_seq(),
    }
}

/// One gutter cell: a right-aligned line-number label, or an
/// all-blank label for separator rows.
pub fn gutter(line: Option<usize>) -> (r: String)
    ensures
        r@ == gutter_seq(line),
{
    match line {
        Some(l) => {
            let digits = usize_to_string(l);
            let pad_n: usize = if l < 10 {
                4
            } else if l < 100 {
                3
            } else if l < 1000 {
                2
            } else if l < 10000 {
                1
            } else {
                0
            };
            proof {
                lemma_dec_rep_len(l as nat);
            }
            let mut s = color(BOLD, BLUE);
            s.append(repeat_char(' ', pad_n).as_str());
            s.append(digits.as_str());
            s.append(" | ");
            s.append(RESET_COLOR);
            proof {
                assert(s@ =~= gutter_seq(line));
            }
            s
        },
        None => {
            let mut s = color(BOLD, BLUE);
            s.append("      | ");
            s.append(RESET_COLOR);
            proof {
                assert(s@ =~= gutter_seq(line));
            }
            s
        },
    }
}

/// The view of a help excerpt: a blank gutter row, the suggested code
/// on its line, and a closing blank gutter row.
pub open spec fn show_code_seq(line: usize, code: Seq<char>, col: Seq<char>) -> Seq<char> {
    gutter_seq(None) + "\n"@ + gutter_seq(Some(line)) + col + code + reset_seq() + "\n"@
        + gutter_seq(None)
}

/// Renders a suggested code line between blank gutter rows.
pub fn show_code(line: usize, code: &String, color_on: &String) -> (r: String)
    ensures
        r@ == show_code_seq(line, code@, color_on@),
{
    let mut s = gutter(None);
    s.append("\n");
    s.append(gutter(Some(line)).as_str());
    s.append(color_on.as_str());
    s.append(code.as_str());
    s.append(RESET_COLOR);
    s.append("\n");
    s.append(gutter(None).as_str());
    proof {
        assert(s@ =~= show_code_seq(line, code@, color_on@));
    }
    s
}

/// The characters `src[start .. end)` as an owned string.
fn chars_to_string(src: &Vec<char>, start: usize, end: usize) -> (r: String)
    requires
        start <= end <= src@.len(),
    ensures
        r@ == src@.subrange(start as int, end as int),
{
    let mut s = String::new();
    let mut i = start;
    proof {
        assert(s@ =~= src@.subrange(start as int, start as int));
    }
    while i < end
        invariant
            start <= i <= end,
            end <= src@.len(),
            s@ == src@.subrange(start as int, i as int),
        decreases end - i,
    {
        push_char(&mut s, src[i]);
        i += 1;
        proof {
            assert(s@ =~= src@.subrange(start as int, i as int));
        }
    }
    s
}

/// The hint text as a character sequence, empty when absent.
pub open spec fn more_seq(more: Option<&str>) -> Seq<char> {
    match more {
        Some(m) => m@,
        None => Seq::empty(),
    }
}

/// The view of a rendered excerpt for `scope`, given the extent
/// `[ls, le)` of the line its start lies on: an optional
/// `--> file:line:column` header, the line between blank gutter rows,
/// and a caret underline of exactly the scope's width, indented to
/// the scope's column and followed by the hint.
pub open spec fn underline_word_seq(
    src: Seq<char>,
    scope: Scope,
    more: Seq<char>,
    und: Seq<char>,
    show: bool,
    ls: int,
    le: int,
) -> Seq<char> {
    let line = line_of(src, scope.start as int);
    let indent: int = if scope.start > ls {
        scope.start - ls
    } else {
        0
    };
    let header: Seq<char> = if show {
        color_seq(1, 31) + "    -->"@ + reset_seq() + " "@ + scope.file@ + ":"@ + dec_rep(line)
            + ":"@ + dec_rep(indent as nat) + "\n"@
    } else {
        Seq::empty()
    };
    header + gutter_seq(None) + "\n"@ + gutter_seq(Some(line as usize)) + src.subrange(ls, le)
        + "\n"@ + gutter_seq(None) + und + char_rep(' ', indent as nat) + char_rep(
        '^',
        (scope.end - scope.start) as nat,
    ) + " "@ + more + reset_seq()
}

/// `out` is the excerpt rendered for `scope` against the registered
/// sources, with `[ls, le)` the extent of the line the scope starts
/// on.
pub open spec fn rendered_excerpt(
    files: Seq<crate::input::SourceFile>,
    scope: Scope,
    more: Seq<char>,
    und: Seq<char>,
    show: bool,
    ls: int,
    le: int,
    out: Seq<char>,
) -> bool {
    let src = source_lookup(files, scope.file@)->Some_0;
    &&& line_bounds(src, line_of(src, scope.start as int), ls, le)
    &&& out == underline_word_seq(src, scope, more, und, show, ls, le)
}

/// `out` is the excerpt rendered for `scope`, for some extent of the
/// line the scope starts on (there is exactly one such extent).
pub open spec fn underline_ok(
    files: Seq<crate::input::SourceFile>,
    scope: Scope,
    more: Seq<char>,
    und: Seq<char>,
    show: bool,
    out: Seq<char>,
) -> bool {
    exists|ls: int, le: int| #[trigger] rendered_excerpt(files, scope, more, und, show, ls, le, out)
}

/// Renders the line the scope starts on with a caret underline under
/// exactly the scope's characters; succeeds exactly when the scope's
/// source name resolves.
pub fn underline_word(
    sources: &Sources,
    scope: &Scope,
    more: Option<&str>,
    underline: &String,
    show_file_loc: bool,
) -> (r: Result<String, RenderError>)
    requires
        scope.start <= scope.end,
        match source_lookup(sources.files@, scope.file@) {
            Some(c) => c.len() < usize::MAX,
            None => true,
        },
    ensures
        match r {
            Ok(out) => {
                &&& source_lookup(sources.files@, scope.file@) is Some
                &&& underline_ok(
                    sources.files@,
                    *scope,
                    more_seq(more),
                    underline@,
                    show_file_loc,
                    out@,
                )
            },
            Err(e) => source_lookup(sources.files@, scope.file@) is None,
        },
{
    let src = match sources.source_by_name(scope.file.clone()) {
        Some(s) => s,
        None => {
            return Err(RenderError::UnresolvedSource);
        },
    };
    let line = get_line(src, scope.start);
    proof {
        let k: int = if scope.start + 1 <= src@.len() {
            scope.start + 1
        } else {
            src@.len() as int
        };
        lemma_newlines_upto_monotone(src@, k, src@.len() as int);
    }
    let bounds = get_line_src(src, line);
    let line_start = bounds.0;
    let line_end = bounds.1;
    let indent_size = if scope.start > line_start {
        scope.start - line_start
    } else {
        0
    };
    let caret_n = scope.end - scope.start;

    let mut s = String::new();
    if show_file_loc {
        s.append(color(BOLD, RED).as_str());
        s.append("    -->");
        s.append(RESET_COLOR);
        s.append(" ");
        s.append(scope.file.as_str());
        s.append(":");
        s.append(usize_to_string(line).as_str());
        s.append(":");
        s.append(usize_to_string(indent_size).as_str());
        s.append("\n");
    }
    s.append(gutter(None).as_str());
    s.append("\n");
    s.append(gutter(Some(line)).as_str());
    s.append(chars_to_string(src, line_start, line_end).as_str());
    s.append("\n");
    s.append(gutter(None).as_str());
    s.append(underline.as_str());
    s.append(repeat_char(' ', indent_size).as_str());
    s.append(repeat_char('^', caret_n).as_str());
    s.append(" ");
    match more {
        Some(m) => s.append(m),
        None => (),
    }
    s.append(RESET_COLOR);
    proof {
        assert(s@ =~= underline_word_seq(
            src@,
            *scope,
            more_seq(more),
            underline@,
            show_file_loc,
            line_start as int,
            line_end as int,
        ));
        assert(rendered_excerpt(
            sources.files@,
            *scope,
            more_seq(more),
            underline@,
            show_file_loc,
            line_start as int,
            line_end as int,
            s@,
        ));
        assert(underline_ok(
            sources.files@,
            *scope,
            more_seq(more),
            underline@,
            show_file_loc,
            s@,
        ));
    }
    Ok(s)
}

/// The view of the missing-closing-brace diagnostic: a title naming
/// the line where exhaustion was detected, then an underlined excerpt
/// of the unmatched opening symbol's own line.
pub open spec fn missing_brace_seq(
    src: Seq<char>,
    opening: Scope,
    at: int,
    ls: int,
    le: int,
) -> Seq<char> {
    color_seq(1, 31) + "MCCS ERROR"@ + reset_seq() + color_seq(1, 97)
        + ": missing closing brace on line "@ + dec_rep(line_of(src, at)) + reset_seq() + "\n"@
        + underline_word_seq(
        src,
        opening,
        "help: missing paired closing brace"@,
        color_seq(0, 36),
        true,
        ls,
        le,
    )
}

/// `out` is the missing-closing-brace diagnostic rendered for
/// `opening` against the registered sources, with `[ls, le)` the
/// extent of the line the opening symbol stands on.
pub open spec fn rendered_missing_brace(
    files: Seq<crate::input::SourceFile>,
    opening: Scope,
    at: int,
    ls: int,
    le: int,
    out: Seq<char>,
) -> bool {
    let src = source_lookup(files, opening.file@)->Some_0;
    &&& line_bounds(src, line_of(src, opening.start as int), ls, le)
    &&& out == missing_brace_seq(src, opening, at, ls, le)
}

/// `out` is the missing-closing-brace diagnostic rendered for
/// `opening`, for some extent of the line it stands on.
pub open spec fn missing_brace_ok(
    files: Seq<crate::input::SourceFile>,
    opening: Scope,
    at: int,
    out: Seq<char>,
) -> bool {
    exists|ls: int, le: int| #[trigger] rendered_missing_brace(files, opening, at, ls, le, out)
}

/// Renders the fatal diagnostic for an unterminated `{` or `(`: the
/// title names the line of the detection offset `at`, the excerpt
/// underlines the opening symbol itself; succeeds exactly when the
/// opening scope's source name resolves.
pub fn render_missing_brace(sources: &Sources, opening: &Scope, at: usize) -> (r: Result<
    String,
    RenderError,
>)
    requires
        opening.start <= opening.end,
        match source_lookup(sources.files@, opening.file@) {
            Some(c) => c.len() < usize::MAX,
            None => true,
        },
    ensures
        match r {
            Ok(out) => {
                &&& source_lookup(sources.files@, opening.file@) is Some
                &&& missing_brace_ok(sources.files@, *opening, at as int, out@)
            },
            Err(e) => source_lookup(sources.files@, opening.file@) is None,
        },
{
    let src = match sources.source_by_name(opening.file.clone()) {
        Some(s) => s,
        None => {
            return Err(RenderError::UnresolvedSource);
        },
    };
    let line_at = get_line(src, at);
    let mut s = color(BOLD, RED);
    s.append("MCCS ERROR");
    s.append(RESET_COLOR);
    s.append(color(BOLD, LIGHT_WHITE).as_str());
    s.append(": missing closing brace on line ");
    s.append(usize_to_string(line_at).as_str());
    s.append(RESET_COLOR);
    s.append("\n");
    match underline_word(
        sources,
        opening,
        Some("help: missing paired closing brace"),
        &color(PLAIN, CYAN),
        true,
    ) {
        Ok(u) => {
            s.append(u.as_str());
            proof {
                let src_v = source_lookup(sources.files@, opening.file@)->Some_0;
                let cyan = color_seq(0, 36);
                let hint = more_seq(Some("help: missing paired closing brace"));
                let (ls, le): (int, int) = choose|ls: int, le: int|
                    #[trigger] rendered_excerpt(
                        sources.files@,
                        *opening,
                        hint,
                        cyan,
                        true,
                        ls,
                        le,
                        u@,
                    );
                assert(s@ =~= missing_brace_seq(src_v, *opening, at as int, ls, le));
                assert(rendered_missing_brace(sources.files@, *opening, at as int, ls, le, s@));
                assert(missing_brace_ok(sources.files@, *opening, at as int, s@));
            }
            Ok(s)
        },
        Err(e) => Err(e),
    }
}

/// The view of the optional help section of an illegal-token
/// diagnostic: a help line and a suggested code excerpt.
pub open spec fn help_seq(help: Option<&Help>) -> Seq<char> {
    match help {
        Some(h) => "\n"@ + color_seq(1, 36) + "help"@ + reset_seq() + ": "@ + h.message@ + "\n"@
            + show_code_seq(h.line, h.source@, color_seq(1, 32)),
        None => Seq::empty(),
    }
}

/// The view of the illegal-token diagnostic: a title describing the
/// token, an underlined excerpt of its line, and the optional help
/// section.
pub open spec fn illegal_token_seq(
    src: Seq<char>,
    token: Token,
    more: Seq<char>,
    help: Option<&Help>,
    ls: int,
    le: int,
) -> Seq<char> {
    color_seq(1, 31) + "MCCS ERROR"@ + reset_seq() + color_seq(1, 97) + ": illegal Token: "@
        + describe_spec(token) + reset_seq() + "\n"@ + underline_word_seq(
        src,
        token.spec_scope(),
        more,
        color_seq(1, 31),
        true,
        ls,
        le,
    ) + help_seq(help)
}

/// `out` is the illegal-token diagnostic rendered for `token` against
/// the registered sources, with `[ls, le)` the extent of the line its
/// scope starts on.
pub open spec fn rendered_illegal_token(
    files: Seq<crate::input::SourceFile>,
    token: Token,
    more: Seq<char>,
    help: Option<&Help>,
    ls: int,
    le: int,
    out: Seq<char>,
) -> bool {
    let src = source_lookup(files, token.spec_scope().file@)->Some_0;
    &&& line_bounds(src, line_of(src, token.spec_scope().start as int), ls, le)
    &&& out == illegal_token_seq(src, token, more, help, ls, le)
}

/// `out` is the illegal-token diagnostic rendered for `token`, for
/// some extent of the line its scope starts on.
pub open spec fn illegal_token_ok(
    files: Seq<crate::input::SourceFile>,
    token: Token,
    more: Seq<char>,
    help: Option<&Help>,
    out: Seq<char>,
) -> bool {
    exists|ls: int, le: int|
        #[trigger] rendered_illegal_token(files, token, more, help, ls, le, out)
}

/// Renders the fatal diagnostic for an illegal token: a title
/// describing the token, the token's own line with a caret underline
/// under exactly its scope, and an optional help excerpt; succeeds
/// exactly when the token's source name resolves.
pub fn render_illegal_token(
    sources: &Sources,
    token: &Token,
    more: Option<&str>,
    help: Option<&Help>,
) -> (r: Result<String, RenderError>)
    requires
        token.spec_scope().start <= token.spec_scope().end,
        match source_lookup(sources.files@, token.spec_scope().file@) {
            Some(c) => c.len() < usize::MAX,
            None => true,
        },
    ensures
        match r {
            Ok(out) => {
                &&& source_lookup(sources.files@, token.spec_scope().file@) is Some
                &&& illegal_token_ok(sources.files@, *token, more_seq(more), help, out@)
            },
            Err(e) => source_lookup(sources.files@, token.spec_scope().file@) is None,
        },
{
    let mut s = color(BOLD, RED);
    s.append("MCCS ERROR");
    s.append(RESET_COLOR);
    s.append(color(BOLD, LIGHT_WHITE).as_str());
    s.append(": illegal Token: ");
    s.append(token.describe().as_str());
    s.append(RESET_COLOR);
    s.append("\n");
    let scope = token.get_scope();
    match underline_word(sources, &scope, more, &color(BOLD, RED), true) {
        Ok(u) => {
            s.append(u.as_str());
            match help {
                Some(h) => {
                    s.append("\n");
                    s.append(color(BOLD, CYAN).as_str());
                    s.append("help");
                    s.append(RESET_COLOR);
                    s.append(": ");
                    s.append(h.message.as_str());
                    s.append("\n");
                    s.append(show_code(h.line, &h.source, &color(BOLD, GREEN)).as_str());
                },
                None => (),
            }
            proof {
                let red = color_seq(1, 31);
                let (ls, le): (int, int) = choose|ls: int, le: int|
                    #[trigger] rendered_excerpt(
                        sources.files@,
                        scope,
                        more_seq(more),
                        red,
                        true,
                        ls,
                        le,
                        u@,
                    );
                let src_v = source_lookup(sources.files@, token.spec_scope().file@)->Some_0;
                assert(s@ =~= illegal_token_seq(src_v, *token, more_seq(more), help, ls, le));
                assert(rendered_illegal_token(
                    sources.files@,
                    *token,
                    more_seq(more),
                    help,
                    ls,
                    le,
                    s@,
                ));
                assert(illegal_token_ok(sources.files@, *token, more_seq(more), help, s@));
            }
            Ok(s)
        },
        Err(e) => Err(e),
    }
}

} // verus!
