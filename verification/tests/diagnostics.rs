use mccs::bash_tools::{color, repeat_char, usize_to_string, BOLD, CYAN, RED, RESET_COLOR};
use mccs::errors::{
    get_line, get_line_src, gutter, render_illegal_token, render_missing_brace, show_code, Help,
    RenderError,
};
use mccs::input::SourceFile;
use mccs::lexer::Lexer;
use mccs::sources::Sources;
use mccs::tokens::Scope;

fn chars(s: &str) -> Vec<char> {
    s.chars().collect()
}

fn esc(decor: u8, col: u8) -> String {
    format!("\u{1b}[{};{}m", decor, col)
}

const R: &str = "\u{001b}[0;0m";

#[test]
fn line_numbers_are_one_based_and_count_newlines() {
    let src = chars("ab\ncd\ne");
    assert_eq!(get_line(&src, 0), 1);
    assert_eq!(get_line(&src, 1), 1);
    // the newline itself already counts toward the next line
    assert_eq!(get_line(&src, 2), 2);
    assert_eq!(get_line(&src, 3), 2);
    assert_eq!(get_line(&src, 4), 2);
    assert_eq!(get_line(&src, 5), 3);
    assert_eq!(get_line(&src, 6), 3);
    assert_eq!(get_line(&src, 100), 3);
}

#[test]
fn line_numbers_never_decrease_with_the_offset() {
    let src = chars("a\n\nbc\nd");
    let mut prev = 0;
    for pos in 0..10 {
        let line = get_line(&src, pos);
        assert!(line >= prev);
        prev = line;
    }
    assert_eq!(get_line(&src, 0), 1);
}

#[test]
fn line_bounds_exclude_the_trailing_newline() {
    let src = chars("ab\ncd\ne");
    assert_eq!(get_line_src(&src, 1), (0, 2));
    assert_eq!(get_line_src(&src, 2), (3, 5));
    assert_eq!(get_line_src(&src, 3), (6, 7));
}

#[test]
fn line_bounds_of_an_empty_last_line() {
    let src = chars("ab\n");
    assert_eq!(get_line_src(&src, 1), (0, 2));
    assert_eq!(get_line_src(&src, 2), (3, 3));
}

#[test]
fn decimal_rendering_is_exact() {
    assert_eq!(usize_to_string(0), "0");
    assert_eq!(usize_to_string(7), "7");
    assert_eq!(usize_to_string(42), "42");
    assert_eq!(usize_to_string(100000), "100000");
    assert_eq!(usize_to_string(usize::MAX), format!("{}", usize::MAX));
}

#[test]
fn repeat_char_builds_runs() {
    assert_eq!(repeat_char('^', 0), "");
    assert_eq!(repeat_char('^', 3), "^^^");
    assert_eq!(repeat_char(' ', 2), "  ");
}

#[test]
fn color_is_an_ansi_escape() {
    assert_eq!(color(BOLD, RED), "\u{1b}[1;31m");
    assert_eq!(color(0, 36), "\u{1b}[0;36m");
    assert_eq!(RESET_COLOR, "\u{1b}[0;0m");
}

#[test]
fn gutter_right_aligns_line_numbers_to_width_five() {
    assert_eq!(gutter(Some(3)), format!("{}    3 | {}", esc(1, 34), R));
    assert_eq!(gutter(Some(12345)), format!("{}12345 | {}", esc(1, 34), R));
    assert_eq!(gutter(Some(123456)), format!("{}123456 | {}", esc(1, 34), R));
    assert_eq!(gutter(None), format!("{}      | {}", esc(1, 34), R));
}

#[test]
fn show_code_frames_the_suggestion_in_blank_gutters() {
    let got = show_code(1, &"datapack my_datapack".to_string(), &color(BOLD, CYAN));
    let want = format!(
        "{g0}\n{g1}{c}datapack my_datapack{r}\n{g0}",
        g0 = gutter(None),
        g1 = gutter(Some(1)),
        c = esc(1, 36),
        r = R,
    );
    assert_eq!(got, want);
}

fn one_source(name: &str, text: &str) -> Sources {
    let mut sources = Sources::new();
    sources.push_source(name.to_string(), chars(text));
    sources
}

#[test]
fn missing_brace_diagnostic_is_rendered_exactly() {
    let sources = one_source("main.mccs", "{ a\n");
    let opening = Scope { file: "main.mccs".to_string(), start: 0, end: 1 };
    let got = render_missing_brace(&sources, &opening, 4).ok().expect("source is registered");
    let want = format!(
        "{red}MCCS ERROR{r}{white}: missing closing brace on line 2{r}\n\
         {red}    -->{r} main.mccs:1:0\n\
         {g0}\n\
         {g1}{{ a\n\
         {g0}{cyan}^ help: missing paired closing brace{r}",
        red = esc(1, 31),
        white = esc(1, 97),
        cyan = esc(0, 36),
        g0 = gutter(None),
        g1 = gutter(Some(1)),
        r = R,
    );
    assert_eq!(got, want);
}

#[test]
fn illegal_token_diagnostic_is_rendered_exactly() {
    let sources = one_source("t.mccs", "a;b\n");
    let sf = SourceFile::new("t.mccs".to_string(), chars("a;b\n"));
    let mut lx = Lexer::new(sf);
    lx.lex().ok().expect("tokenization should succeed");
    let got = render_illegal_token(&sources, &lx.tokens[1], Some("expected item declaration"), None)
        .ok()
        .expect("source is registered");
    let want = format!(
        "{red}MCCS ERROR{r}{white}: illegal Token: Symbol ';'{r}\n\
         {red}    -->{r} t.mccs:1:1\n\
         {g0}\n\
         {g1}a;b\n\
         {g0}{red} ^ expected item declaration{r}",
        red = esc(1, 31),
        white = esc(1, 97),
        g0 = gutter(None),
        g1 = gutter(Some(1)),
        r = R,
    );
    assert_eq!(got, want);
}

#[test]
fn illegal_token_diagnostic_appends_the_help_excerpt() {
    let sources = one_source("t.mccs", "fn f\n");
    let sf = SourceFile::new("t.mccs".to_string(), chars("fn f\n"));
    let mut lx = Lexer::new(sf);
    lx.lex().ok().expect("tokenization should succeed");
    let help = Help {
        message: "try declaring datapack".to_string(),
        source: "datapack my_datapack".to_string(),
        line: 1,
    };
    let got =
        render_illegal_token(&sources, &lx.tokens[0], Some("must declare datapack first"), Some(&help))
            .ok()
            .expect("source is registered");
    let want = format!(
        "{red}MCCS ERROR{r}{white}: illegal Token: Word 'fn'{r}\n\
         {red}    -->{r} t.mccs:1:0\n\
         {g0}\n\
         {g1}fn f\n\
         {g0}{red}^^ must declare datapack first{r}\n\
         {cyan}help{r}: try declaring datapack\n\
         {g0}\n\
         {g1}{green}datapack my_datapack{r}\n\
         {g0}",
        red = esc(1, 31),
        white = esc(1, 97),
        cyan = esc(1, 36),
        green = esc(1, 32),
        g0 = gutter(None),
        g1 = gutter(Some(1)),
        r = R,
    );
    assert_eq!(got, want);
}

#[test]
fn an_unregistered_source_name_is_reported() {
    let sources = Sources::new();
    let opening = Scope { file: "ghost.mccs".to_string(), start: 0, end: 1 };
    let res = render_missing_brace(&sources, &opening, 0);
    assert!(matches!(res, Err(RenderError::UnresolvedSource)));
}
