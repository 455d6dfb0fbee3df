//! The lexer: scans raw source text into a flat token sequence.

use vstd::prelude::*;

use crate::errors::ScanError;
pub use crate::token_type::TokenType;

verus! {

/// One lexical token: its kind, the slice of source text it was read
/// from, and the 1-based line it started on.
///
/// Equality between tokens is defined by kind alone; lexeme and line
/// are informational. The parser relies on this to match "a token of
/// this kind" without caring about its text.
#[derive(Debug, Clone)]
pub struct Token {
    pub token_type: TokenType,
    pub lexeme: String,
    pub line: usize,
}

/// The mathematical value of a token: kind, lexeme characters, line.
pub ghost struct SpecToken {
    pub kind: TokenType,
    pub lexeme: Seq<char>,
    pub line: nat,
}

impl View for Token {
    type V = SpecToken;

    open spec fn view(&self) -> SpecToken {
        SpecToken { kind: self.token_type, lexeme: self.lexeme@, line: self.line as nat }
    }
}

impl PartialEq for Token {
    fn eq(&self, other: &Self) -> (r: bool) {
        self.token_type == other.token_type
    }
}

impl vstd::std_specs::cmp::PartialEqSpecImpl for Token {
    open spec fn obeys_eq_spec() -> bool {
        true
    }

    open spec fn eq_spec(&self, other: &Self) -> bool {
        self.token_type == other.token_type
    }
}

impl Token {
    pub fn new(token_type: TokenType, lexeme: String, line: usize) -> (t: Token)
        ensures
            t@ == (SpecToken { kind: token_type, lexeme: lexeme@, line: line as nat }),
    {
        Token { token_type, lexeme, line }
    }

    /// A copy of this token, equal to it field by field.
    pub fn dup(&self) -> (t: Token)
        ensures
            t == *self,
    {
        Token { token_type: self.token_type, lexeme: self.lexeme.clone(), line: self.line }
    }
}

/// Tokens and comments produced by scanning a piece of source text.
pub ghost struct ScanOut {
    pub toks: Seq<SpecToken>,
    pub comments: Seq<SpecToken>,
}

/// Decimal digit.
pub open spec fn spec_is_digit(c: char) -> bool {
    '0' <= c && c <= '9'
}

/// Letter or underscore: what may start an identifier.
pub open spec fn spec_is_alpha(c: char) -> bool {
    ('a' <= c && c <= 'z') || ('A' <= c && c <= 'Z') || c == '_'
}

/// Letter, underscore or digit: what may continue an identifier.
pub open spec fn spec_is_alnum(c: char) -> bool {
    spec_is_alpha(c) || spec_is_digit(c)
}

/// The kind an identifier run is reclassified to: one of the fixed
/// keywords, or `Name`.
pub open spec fn spec_keyword(s: Seq<char>) -> TokenType {
    if s == "and"@ {
        TokenType::And
    } else if s == "break"@ {
        TokenType::Break
    } else if s == "do"@ {
        TokenType::Do
    } else if s == "else"@ {
        TokenType::Else
    } else if s == "elseif"@ {
        TokenType::Elseif
    } else if s == "end"@ {
        TokenType::End
    } else if s == "false"@ {
        TokenType::False
    } else if s == "for"@ {
        TokenType::For
    } else if s == "function"@ {
        TokenType::Function
    } else if s == "goto"@ {
        TokenType::Goto
    } else if s == "if"@ {
        TokenType::If
    } else if s == "in"@ {
        TokenType::In
    } else if s == "local"@ {
        TokenType::Local
    } else if s == "nil"@ {
        TokenType::Nil
    } else if s == "not"@ {
        TokenType::Not
    } else if s == "or"@ {
        TokenType::Or
    } else if s == "repeat"@ {
        TokenType::Repeat
    } else if s == "return"@ {
        TokenType::Return
    } else if s == "then"@ {
        TokenType::Then
    } else if s == "true"@ {
        TokenType::True
    } else if s == "until"@ {
        TokenType::Until
    } else if s == "while"@ {
        TokenType::While
    } else {
        TokenType::Name
    }
}

/// First position at or after `i` holding a newline, or the length of
/// `s` if there is none: where a line comment ends.
pub open spec fn find_nl(s: Seq<char>, i: nat) -> nat
    decreases s.len() - i,
    when i <= s.len()
{
    if i >= s.len() {
        s.len()
    } else if s[i as int] != '\n' {
        find_nl(s, i + 1)
    } else {
        i
    }
}

pub proof fn lemma_find_nl_bounds(s: Seq<char>, i: nat)
    requires
        i <= s.len(),
    ensures
        i <= find_nl(s, i) <= s.len(),
    decreases s.len() - i,
{
    if i < s.len() && s[i as int] != '\n' {
        lemma_find_nl_bounds(s, i + 1);
    }
}

/// First position at or after `i` holding the closing quote or a raw
/// newline, or the length of `s`: where a string literal body ends.
pub open spec fn find_str_end(s: Seq<char>, i: nat, quote: char) -> nat
    decreases s.len() - i,
    when i <= s.len()
{
    if i >= s.len() {
        s.len()
    } else if s[i as int] != quote && s[i as int] != '\n' {
        find_str_end(s, i + 1, quote)
    } else {
        i
    }
}

pub proof fn lemma_find_str_end_bounds(s: Seq<char>, i: nat, quote: char)
    requires
        i <= s.len(),
    ensures
        i <= find_str_end(s, i, quote) <= s.len(),
    decreases s.len() - i,
{
    if i < s.len() && s[i as int] != quote && s[i as int] != '\n' {
        lemma_find_str_end_bounds(s, i + 1, quote);
    }
}

/// First position at or after `i` holding a non-digit, or the length
/// of `s`: where a digit run ends.
pub open spec fn digits_end(s: Seq<char>, i: nat) -> nat
    decreases s.len() - i,
    when i <= s.len()
{
    if i >= s.len() {
        s.len()
    } else if spec_is_digit(s[i as int]) {
        digits_end(s, i + 1)
    } else {
        i
    }
}

pub proof fn lemma_digits_end_bounds(s: Seq<char>, i: nat)
    requires
        i <= s.len(),
    ensures
        i <= digits_end(s, i) <= s.len(),
    decreases s.len() - i,
{
    if i < s.len() && spec_is_digit(s[i as int]) {
        lemma_digits_end_bounds(s, i + 1);
    }
}

/// First position at or after `i` holding a character that cannot
/// continue an identifier, or the length of `s`: where a name ends.
pub open spec fn name_end(s: Seq<char>, i: nat) -> nat
    decreases s.len() - i,
    when i <= s.len()
{
    if i >= s.len() {
        s.len()
    } else if spec_is_alnum(s[i as int]) {
        name_end(s, i + 1)
    } else {
        i
    }
}

pub proof fn lemma_name_end_bounds(s: Seq<char>, i: nat)
    requires
        i <= s.len(),
    ensures
        i <= name_end(s, i) <= s.len(),
    decreases s.len() - i,
{
    if i < s.len() && spec_is_alnum(s[i as int]) {
        lemma_name_end_bounds(s, i + 1);
    }
}

/// Prepend a token to the result of scanning the rest of the input.
pub open spec fn push_tok(t: SpecToken, rest: Option<ScanOut>) -> Option<ScanOut> {
    match rest {
        Option::None => Option::None,
        Option::Some(o) => Option::Some(ScanOut { toks: seq![t] + o.toks, comments: o.comments }),
    }
}

/// Prepend a comment to the result of scanning the rest of the input.
pub open spec fn push_com(t: SpecToken, rest: Option<ScanOut>) -> Option<ScanOut> {
    match rest {
        Option::None => Option::None,
        Option::Some(o) => Option::Some(ScanOut { toks: o.toks, comments: seq![t] + o.comments }),
    }
}

/// One token of kind `k`, `n` characters long, taken off the front of
/// `s`, followed by whatever the rest of the input scans to.
pub open spec fn step_tok(k: TokenType, n: nat, s: Seq<char>, line: nat, rest: Option<ScanOut>) -> Option<ScanOut> {
    push_tok(SpecToken { kind: k, lexeme: s.take(n as int), line }, rest)
}

/// What the lexer produces on the remaining input `s`, the cursor
/// standing on line `line`: the token sequence (always ending in `Eof`)
/// and the comments, or `None` on a lexical error.
///
/// This is the single left-to-right pass of the scanner, one branch per
/// leading character class; each branch consumes at least one character.
pub open spec fn scan_rest(s: Seq<char>, line: nat) -> Option<ScanOut>
    decreases s.len(),
    via scan_rest_decreases
{
    if s.len() == 0 {
        Option::Some(
            ScanOut {
                toks: seq![SpecToken { kind: TokenType::Eof, lexeme: Seq::empty(), line }],
                comments: Seq::empty(),
            },
        )
    } else {
        let c = s[0];
        if c == '(' {
            step_tok(TokenType::ParenL, 1, s, line, scan_rest(s.skip(1 as int), line))
        } else if c == ')' {
            step_tok(TokenType::ParenR, 1, s, line, scan_rest(s.skip(1 as int), line))
        } else if c == '{' {
            step_tok(TokenType::BraceL, 1, s, line, scan_rest(s.skip(1 as int), line))
        } else if c == '}' {
            step_tok(TokenType::BraceR, 1, s, line, scan_rest(s.skip(1 as int), line))
        } else if c == '[' {
            step_tok(TokenType::BracketL, 1, s, line, scan_rest(s.skip(1 as int), line))
        } else if c == ']' {
            step_tok(TokenType::BracketR, 1, s, line, scan_rest(s.skip(1 as int), line))
        } else if c == ',' {
            step_tok(TokenType::Comma, 1, s, line, scan_rest(s.skip(1 as int), line))
        } else if c == '+' {
            step_tok(TokenType::Plus, 1, s, line, scan_rest(s.skip(1 as int), line))
        } else if c == '&' {
            step_tok(TokenType::Amp, 1, s, line, scan_rest(s.skip(1 as int), line))
        } else if c == '|' {
            step_tok(TokenType::Bar, 1, s, line, scan_rest(s.skip(1 as int), line))
        } else if c == '%' {
            step_tok(TokenType::Perc, 1, s, line, scan_rest(s.skip(1 as int), line))
        } else if c == '^' {
            step_tok(TokenType::Hat, 1, s, line, scan_rest(s.skip(1 as int), line))
        } else if c == ';' {
            step_tok(TokenType::SemiColon, 1, s, line, scan_rest(s.skip(1 as int), line))
        } else if c == '*' {
            step_tok(TokenType::Aster, 1, s, line, scan_rest(s.skip(1 as int), line))
        } else if c == '#' {
            step_tok(TokenType::Opus, 1, s, line, scan_rest(s.skip(1 as int), line))
        } else if c == '.' {
            if s.len() >= 2 && s[1] == '.' {
                if s.len() >= 3 && s[2] == '.' {
                    step_tok(TokenType::Concat, 3, s, line, scan_rest(s.skip(3 as int), line))
                } else {
                    step_tok(TokenType::Dots, 2, s, line, scan_rest(s.skip(2 as int), line))
                }
            } else {
                step_tok(TokenType::Period, 1, s, line, scan_rest(s.skip(1 as int), line))
            }
        } else if c == '-' {
            if s.len() >= 2 && s[1] == '-' {
                // line comment: runs to just before the newline, which
                // is handled by the next step
                let j = find_nl(s, 2);
                push_com(
                    SpecToken { kind: TokenType::Comment, lexeme: s.take(j as int), line },
                    scan_rest(s.skip(j as int), line),
                )
            } else {
                step_tok(TokenType::Minus, 1, s, line, scan_rest(s.skip(1 as int), line))
            }
        } else if c == ':' {
            if s.len() >= 2 && s[1] == ':' {
                step_tok(TokenType::DbColon, 2, s, line, scan_rest(s.skip(2 as int), line))
            } else {
                step_tok(TokenType::Colon, 1, s, line, scan_rest(s.skip(1 as int), line))
            }
        } else if c == '~' {
            if s.len() >= 2 && s[1] == '=' {
                step_tok(TokenType::Ne, 2, s, line, scan_rest(s.skip(2 as int), line))
            } else {
                step_tok(TokenType::Tilda, 1, s, line, scan_rest(s.skip(1 as int), line))
            }
        } else if c == '=' {
            if s.len() >= 2 && s[1] == '=' {
                step_tok(TokenType::Eql, 2, s, line, scan_rest(s.skip(2 as int), line))
            } else {
                step_tok(TokenType::Assign, 1, s, line, scan_rest(s.skip(1 as int), line))
            }
        } else if c == '<' {
            if s.len() >= 2 && s[1] == '<' {
                step_tok(TokenType::ShL, 2, s, line, scan_rest(s.skip(2 as int), line))
            } else if s.len() >= 2 && s[1] == '=' {
                step_tok(TokenType::Le, 2, s, line, scan_rest(s.skip(2 as int), line))
            } else {
                step_tok(TokenType::Less, 1, s, line, scan_rest(s.skip(1 as int), line))
            }
        } else if c == '>' {
            if s.len() >= 2 && s[1] == '>' {
                step_tok(TokenType::ShR, 2, s, line, scan_rest(s.skip(2 as int), line))
            } else if s.len() >= 2 && s[1] == '=' {
                step_tok(TokenType::Ge, 2, s, line, scan_rest(s.skip(2 as int), line))
            } else {
                step_tok(TokenType::Greater, 1, s, line, scan_rest(s.skip(1 as int), line))
            }
        } else if c == '/' {
            if s.len() >= 2 && s[1] == '/' {
                step_tok(TokenType::IDiv, 2, s, line, scan_rest(s.skip(2 as int), line))
            } else {
                step_tok(TokenType::Slash, 1, s, line, scan_rest(s.skip(1 as int), line))
            }
        } else if c == ' ' || c == '\r' || c == '\t' {
            scan_rest(s.skip(1), line)
        } else if c == '\n' {
            scan_rest(s.skip(1), line + 1)
        } else if c == '\'' || c == '"' {
            // string literal: everything up to the matching quote; a raw
            // line break or end of input before the quote is an error
            let j = find_str_end(s, 1, c);
            if j >= s.len() {
                Option::None
            } else if s[j as int] == '\n' {
                Option::None
            } else {
                step_tok(TokenType::StringLit, j + 1, s, line, scan_rest(s.skip(j + 1 as int), line))
            }
        } else if spec_is_digit(c) {
            let k = digits_end(s, 1);
            if k < s.len() && s[k as int] == '.' && k + 1 < s.len() && spec_is_digit(
                s[k + 1 as int],
            ) {
                let k2 = digits_end(s, k + 1);
                step_tok(TokenType::Float, k2, s, line, scan_rest(s.skip(k2 as int), line))
            } else {
                step_tok(TokenType::Int, k, s, line, scan_rest(s.skip(k as int), line))
            }
        } else if spec_is_alpha(c) {
            let k = name_end(s, 1);
            step_tok(spec_keyword(s.take(k as int)), k, s, line, scan_rest(s.skip(k as int), line))
        } else {
            Option::None
        }
    }
}

#[via_fn]
proof fn scan_rest_decreases(s: Seq<char>, line: nat) {
    if s.len() > 0 {
        let c = s[0];
        if s.len() >= 2 {
            lemma_find_nl_bounds(s, 2);
        }
        lemma_find_str_end_bounds(s, 1, c);
        lemma_digits_end_bounds(s, 1);
        lemma_name_end_bounds(s, 1);
        if spec_is_digit(c) {
            let k = digits_end(s, 1);
            if k + 1 <= s.len() {
                lemma_digits_end_bounds(s, k + 1);
            }
        }
    }
}

/// The whole-source scan: tokens and comments of `source`, the line
/// counter starting at 1.
pub open spec fn spec_scan(source: Seq<char>) -> Option<ScanOut> {
    scan_rest(source, 1)
}

/// The views of a sequence of tokens.
pub open spec fn tok_views(ts: Seq<Token>) -> Seq<SpecToken> {
    ts.map_values(|t: Token| t@)
}

/// Tokens `dt` and comments `dc` already produced, followed by whatever
/// the rest of the input scans to.
pub open spec fn combine_out(dt: Seq<SpecToken>, dc: Seq<SpecToken>, rest: Option<ScanOut>) -> Option<ScanOut> {
    match rest {
        Option::None => Option::None,
        Option::Some(o) => Option::Some(ScanOut { toks: dt + o.toks, comments: dc + o.comments }),
    }
}

pub proof fn lemma_combine_empty(r: Option<ScanOut>)
    ensures
        combine_out(Seq::empty(), Seq::empty(), r) == r,
{
    match r {
        Option::None => {},
        Option::Some(o) => {
            assert(Seq::empty() + o.toks =~= o.toks);
            assert(Seq::empty() + o.comments =~= o.comments);
        },
    }
}

pub proof fn lemma_push_tok_is_combine(t: SpecToken, r: Option<ScanOut>)
    ensures
        push_tok(t, r) == combine_out(seq![t], Seq::empty(), r),
{
    match r {
        Option::None => {},
        Option::Some(o) => {
            assert(Seq::empty() + o.comments =~= o.comments);
        },
    }
}

pub proof fn lemma_push_com_is_combine(t: SpecToken, r: Option<ScanOut>)
    ensures
        push_com(t, r) == combine_out(Seq::empty(), seq![t], r),
{
    match r {
        Option::None => {},
        Option::Some(o) => {
            assert(Seq::empty() + o.toks =~= o.toks);
        },
    }
}

pub proof fn lemma_combine_assoc(
    a1: Seq<SpecToken>,
    c1: Seq<SpecToken>,
    a2: Seq<SpecToken>,
    c2: Seq<SpecToken>,
    r: Option<ScanOut>,
)
    ensures
        combine_out(a1, c1, combine_out(a2, c2, r)) == combine_out(a1 + a2, c1 + c2, r),
{
    match r {
        Option::None => {},
        Option::Some(o) => {
            assert(a1 + (a2 + o.toks) =~= (a1 + a2) + o.toks);
            assert(c1 + (c2 + o.comments) =~= (c1 + c2) + o.comments);
        },
    }
}

proof fn lemma_skip_take(s: Seq<char>, i: int, n: int)
    requires
        0 <= i,
        0 <= n,
        i + n <= s.len(),
    ensures
        s.skip(i).take(n) == s.subrange(i, i + n),
{
    assert(s.skip(i).take(n) =~= s.subrange(i, i + n));
}

proof fn lemma_skip_skip(s: Seq<char>, i: int, n: int)
    requires
        0 <= i,
        0 <= n,
        i + n <= s.len(),
    ensures
        s.skip(i).skip(n) == s.skip(i + n),
{
    assert(s.skip(i).skip(n) =~= s.skip(i + n));
}

proof fn lemma_tok_views_push(ts: Seq<Token>, t: Token)
    ensures
        tok_views(ts.push(t)) == tok_views(ts).push(t@),
        ts.push(t).take(ts.len() as int) == ts,
        tok_views(ts.push(t).skip(ts.len() as int)) == seq![t@],
{
    assert(tok_views(ts.push(t)) =~= tok_views(ts).push(t@));
    assert(ts.push(t).take(ts.len() as int) =~= ts);
    assert(tok_views(ts.push(t).skip(ts.len() as int)) =~= seq![t@]);
}

proof fn lemma_tok_views_same(ts: Seq<Token>)
    ensures
        ts.take(ts.len() as int) == ts,
        tok_views(ts.skip(ts.len() as int)) == Seq::<SpecToken>::empty(),
{
    assert(ts.take(ts.len() as int) =~= ts);
    assert(tok_views(ts.skip(ts.len() as int)) =~= Seq::<SpecToken>::empty());
}

fn is_digit(c: char) -> (b: bool)
    ensures
        b == spec_is_digit(c),
{
    c >= '0' && c <= '9'
}

fn is_alpha(c: char) -> (b: bool)
    ensures
        b == spec_is_alpha(c),
{
    (c >= 'a' && c <= 'z') || (c >= 'A' && c <= 'Z') || c == '_'
}

fn is_alphanumeric(c: char) -> (b: bool)
    ensures
        b == spec_is_alnum(c),
{
    is_alpha(c) || is_digit(c)
}

/// Character-wise equality of two string slices.
pub fn str_eq(a: &str, b: &str) -> (r: bool)
    ensures
        r == (a@ == b@),
{
    let n = a.unicode_len();
    let m = b.unicode_len();
    if n != m {
        proof {
            assert(a@ != b@) by {
                assert(a@.len() != b@.len());
            }
        }
        return false;
    }
    let mut i: usize = 0;
    while i < n
        invariant
            i <= n,
            n == a@.len(),
            n == b@.len(),
            forall|j: int| 0 <= j < i ==> a@[j] == b@[j],
        decreases n - i,
    {
        if a.get_char(i) != b.get_char(i) {
            return false;
        }
        i = i + 1;
    }
    proof {
        assert(a@ =~= b@);
    }
    true
}

/// The keyword table: the kind an identifier is reclassified to.
fn keyword_kind(s: &str) -> (k: TokenType)
    ensures
        k == spec_keyword(s@),
        k != TokenType::Eof,
        k != TokenType::Comment,
{
    if str_eq(s, "and") {
        TokenType::And
    } else if str_eq(s, "break") {
        TokenType::Break
    } else if str_eq(s, "do") {
        TokenType::Do
    } else if str_eq(s, "else") {
        TokenType::Else
    } else if str_eq(s, "elseif") {
        TokenType::Elseif
    } else if str_eq(s, "end") {
        TokenType::End
    } else if str_eq(s, "false") {
        TokenType::False
    } else if str_eq(s, "for") {
        TokenType::For
    } else if str_eq(s, "function") {
        TokenType::Function
    } else if str_eq(s, "goto") {
        TokenType::Goto
    } else if str_eq(s, "if") {
        TokenType::If
    } else if str_eq(s, "in") {
        TokenType::In
    } else if str_eq(s, "local") {
        TokenType::Local
    } else if str_eq(s, "nil") {
        TokenType::Nil
    } else if str_eq(s, "not") {
        TokenType::Not
    } else if str_eq(s, "or") {
        TokenType::Or
    } else if str_eq(s, "repeat") {
        TokenType::Repeat
    } else if str_eq(s, "return") {
        TokenType::Return
    } else if str_eq(s, "then") {
        TokenType::Then
    } else if str_eq(s, "true") {
        TokenType::True
    } else if str_eq(s, "until") {
        TokenType::Until
    } else if str_eq(s, "while") {
        TokenType::While
    } else {
        TokenType::Name
    }
}

/// Splitting a token sequence at a prefix splits its views.
proof fn lemma_tok_views_split(a: Seq<Token>, b: Seq<Token>)
    requires
        a.len() <= b.len(),
        b.take(a.len() as int) == a,
    ensures
        tok_views(a) + tok_views(b.skip(a.len() as int)) == tok_views(b),
{
    assert(tok_views(a) + tok_views(b.skip(a.len() as int)) =~= tok_views(b));
}

/// A step that takes one token of `n` characters off the input at
/// position `cur0`, written as producing that token and scanning on.
proof fn lemma_single_tok(src: Seq<char>, cur0: nat, line: nat, k: TokenType, n: nat)
    requires
        1 <= n,
        cur0 + n <= src.len(),
        scan_rest(src.skip(cur0 as int), line) == step_tok(
            k,
            n,
            src.skip(cur0 as int),
            line,
            scan_rest(src.skip(cur0 as int).skip(n as int), line),
        ),
    ensures
        scan_rest(src.skip(cur0 as int), line) == combine_out(
            seq![
                SpecToken {
                    kind: k,
                    lexeme: src.subrange(cur0 as int, cur0 + n as int),
                    line,
                },
            ],
            Seq::empty(),
            scan_rest(src.skip(cur0 + n as int), line),
        ),
{
    lemma_skip_take(src, cur0 as int, n as int);
    lemma_skip_skip(src, cur0 as int, n as int);
    lemma_push_tok_is_combine(
        SpecToken { kind: k, lexeme: src.subrange(cur0 as int, cur0 + n as int), line },
        scan_rest(src.skip(cur0 + n as int), line),
    );
}

/// What a branch of the scanner that pushed one `n`-character token
/// must show: the step produces exactly that token and no comment.
proof fn lemma_branch_single(
    src: Seq<char>,
    cur0: nat,
    line: nat,
    t0: Seq<Token>,
    c0: Seq<Token>,
    tnew: Seq<Token>,
    k: TokenType,
    n: nat,
)
    requires
        1 <= n,
        cur0 + n <= src.len(),
        tnew.len() == t0.len() + 1,
        tnew == t0.push(tnew.last()),
        tnew.last()@ == (SpecToken {
            kind: k,
            lexeme: src.subrange(cur0 as int, cur0 + n as int),
            line,
        }),
        scan_rest(src.skip(cur0 as int), line) == step_tok(
            k,
            n,
            src.skip(cur0 as int),
            line,
            scan_rest(src.skip(cur0 as int).skip(n as int), line),
        ),
    ensures
        tnew.take(t0.len() as int) == t0,
        scan_rest(src.skip(cur0 as int), line) == combine_out(
            tok_views(tnew.skip(t0.len() as int)),
            tok_views(c0.skip(c0.len() as int)),
            scan_rest(src.skip(cur0 + n as int), line),
        ),
{
    lemma_single_tok(src, cur0, line, k, n);
    lemma_tok_views_push(t0, tnew.last());
    lemma_tok_views_same(c0);
}

/// What the comment branch must show: the step produces exactly one
/// comment and no token, and stops short of the newline.
proof fn lemma_branch_comment(
    src: Seq<char>,
    cur0: nat,
    line: nat,
    t0: Seq<Token>,
    c0: Seq<Token>,
    cnew: Seq<Token>,
    j: nat,
)
    requires
        2 <= j,
        cur0 + j <= src.len(),
        cnew.len() == c0.len() + 1,
        cnew == c0.push(cnew.last()),
        cnew.last()@ == (SpecToken {
            kind: TokenType::Comment,
            lexeme: src.subrange(cur0 as int, cur0 + j as int),
            line,
        }),
        scan_rest(src.skip(cur0 as int), line) == push_com(
            SpecToken {
                kind: TokenType::Comment,
                lexeme: src.skip(cur0 as int).take(j as int),
                line,
            },
            scan_rest(src.skip(cur0 as int).skip(j as int), line),
        ),
    ensures
        cnew.take(c0.len() as int) == c0,
        scan_rest(src.skip(cur0 as int), line) == combine_out(
            tok_views(t0.skip(t0.len() as int)),
            tok_views(cnew.skip(c0.len() as int)),
            scan_rest(src.skip(cur0 + j as int), line),
        ),
{
    lemma_skip_take(src, cur0 as int, j as int);
    lemma_skip_skip(src, cur0 as int, j as int);
    lemma_push_com_is_combine(
        SpecToken {
            kind: TokenType::Comment,
            lexeme: src.subrange(cur0 as int, cur0 + j as int),
            line,
        },
        scan_rest(src.skip(cur0 + j as int), line),
    );
    lemma_tok_views_push(c0, cnew.last());
    lemma_tok_views_same(t0);
}

/// What a branch that consumed a character without producing anything
/// must show: the rest of the scan is unchanged.
proof fn lemma_branch_silent(src: Seq<char>, cur0: nat, line0: nat, line1: nat, t0: Seq<Token>, c0: Seq<Token>)
    requires
        cur0 + 1 <= src.len(),
        scan_rest(src.skip(cur0 as int), line0) == scan_rest(
            src.skip(cur0 as int).skip(1),
            line1,
        ),
    ensures
        scan_rest(src.skip(cur0 as int), line0) == combine_out(
            tok_views(t0.skip(t0.len() as int)),
            tok_views(c0.skip(c0.len() as int)),
            scan_rest(src.skip(cur0 + 1 as int), line1),
        ),
{
    lemma_skip_skip(src, cur0 as int, 1);
    lemma_tok_views_same(t0);
    lemma_tok_views_same(c0);
    lemma_combine_empty(scan_rest(src.skip(cur0 + 1 as int), line1));
}

/// The lexer: a single left-to-right cursor over the source text. It
/// never backtracks. `tokens` receives the token stream, always closed
/// by a synthetic `Eof` token; `comments` receives line comments, kept
/// apart from the parser-facing stream.
#[derive(Debug)]
pub struct Scanner<'source> {
    pub source: &'source str,
    pub tokens: Vec<Token>,
    pub comments: Vec<Token>,
    pub start: usize,
    pub current: usize,
    pub line: usize,
}

impl<'source> Scanner<'source> {
    /// The cursor stands inside the source, behind `start`, and the
    /// 1-based line counter never runs ahead of the cursor.
    pub open spec fn wf(&self) -> bool {
        &&& self.current <= self.source@.len()
        &&& self.start <= self.current
        &&& 1 <= self.line
        &&& self.line as nat <= self.current as nat + 1
    }

    /// No text consumed yet: the cursor at the start, the line counter
    /// at 1, no tokens and no comments produced.
    pub open spec fn fresh(&self) -> bool {
        &&& self.current == 0
        &&& self.start == 0
        &&& self.line == 1
        &&& self.tokens@ == Seq::<Token>::empty()
        &&& self.comments@ == Seq::<Token>::empty()
    }

    pub fn new(source: &'source str) -> (s: Self)
        ensures
            s.wf(),
            s.fresh(),
            s.source@ == source@,
    {
        Scanner {
            source,
            tokens: Vec::new(),
            comments: Vec::new(),
            start: 0,
            current: 0,
            line: 1,
        }
    }

    fn is_at_end(&self) -> (b: bool)
        ensures
            b == (self.current >= self.source@.len()),
    {
        self.current >= self.source.unicode_len()
    }

    fn getchar(&self, nth: usize) -> (c: char)
        requires
            nth < self.source@.len(),
        ensures
            c == self.source@[nth as int],
    {
        self.source.get_char(nth)
    }

    fn advance(&mut self) -> (c: char)
        requires
            old(self).current < old(self).source@.len(),
            old(self).current < usize::MAX,
        ensures
            c == old(self).source@[old(self).current as int],
            *final(self) == (Scanner { current: (old(self).current + 1) as usize, ..*old(self) }),
    {
        let c = self.getchar(self.current);
        self.current = self.current + 1;
        c
    }

    fn test(&mut self, expected: char) -> (b: bool)
        requires
            old(self).current <= old(self).source@.len(),
            old(self).current < usize::MAX,
        ensures
            b == (old(self).current < old(self).source@.len() && old(self).source@[old(
                self,
            ).current as int] == expected),
            b ==> *final(self) == (Scanner {
                current: (old(self).current + 1) as usize,
                ..*old(self)
            }),
            !b ==> *final(self) == *old(self),
    {
        if self.is_at_end() {
            return false;
        }
        let c = self.getchar(self.current);
        if c != expected {
            return false;
        }
        self.current = self.current + 1;
        true
    }

    fn peek(&self) -> (c: char)
        requires
            self.current <= self.source@.len(),
        ensures
            self.current < self.source@.len() ==> c == self.source@[self.current as int],
            self.current >= self.source@.len() ==> c == '\0',
    {
        if self.is_at_end() {
            '\0'
        } else {
            self.getchar(self.current)
        }
    }

    fn peek_next(&self) -> (c: char)
        requires
            self.current <= self.source@.len(),
            self.current < usize::MAX,
        ensures
            self.current + 1 < self.source@.len() ==> c == self.source@[self.current + 1],
            self.current + 1 >= self.source@.len() ==> c == '\0',
    {
        if self.current + 1 >= self.source.unicode_len() {
            '\0'
        } else {
            self.getchar(self.current + 1)
        }
    }

    /// Scan the whole source. On success the token sequence, closed by
    /// a synthetic `Eof` token, and the collected comments are exactly
    /// what `spec_scan` gives on the source text, and the returned
    /// count is the number of tokens; on a lexical error `spec_scan`
    /// gives nothing.
    #[verifier::loop_isolation(false)]
    pub fn scan(&mut self) -> (r: Result<usize, ScanError>)
        requires
            old(self).wf(),
            old(self).fresh(),
            old(self).source@.len() < usize::MAX,
        ensures
            final(self).source == old(self).source,
            match r {
                Ok(n) => {
                    &&& spec_scan(old(self).source@) == Option::Some(
                        ScanOut {
                            toks: tok_views(final(self).tokens@),
                            comments: tok_views(final(self).comments@),
                        },
                    )
                    &&& n == final(self).tokens@.len()
                    &&& n >= 1
                },
                Err(_) => spec_scan(old(self).source@) == Option::<ScanOut>::None && (forall|
                    i: int,
                |
                    0 <= i < final(self).tokens@.len() ==> (
                    #[trigger] final(self).tokens@[i].token_type) != TokenType::Eof),
            },
    {
        let ghost src = self.source@;
        proof {
            assert(src.skip(0) =~= src);
            lemma_combine_empty(scan_rest(src, 1));
            assert(tok_views(Seq::<Token>::empty()) =~= Seq::<SpecToken>::empty());
        }
        let n = self.source.unicode_len();
        while self.current < n
            invariant
                self.wf(),
                self.source == old(self).source,
                self.source@ == src,
                n == src.len(),
                scan_rest(src, 1) == combine_out(
                    tok_views(self.tokens@),
                    tok_views(self.comments@),
                    scan_rest(src.skip(self.current as int), self.line as nat),
                ),
                forall|i: int|
                    0 <= i < self.tokens@.len() ==> (#[trigger] self.tokens@[i].token_type)
                        != TokenType::Eof,
            decreases src.len() - self.current,
        {
            self.start = self.current;
            let ghost mid = *self;
            let step = self.scan_token();
            proof {
                let dt = tok_views(self.tokens@.skip(mid.tokens@.len() as int));
                let dc = tok_views(self.comments@.skip(mid.comments@.len() as int));
                let rest = scan_rest(src.skip(self.current as int), self.line as nat);
                if step is Ok {
                    lemma_combine_assoc(
                        tok_views(mid.tokens@),
                        tok_views(mid.comments@),
                        dt,
                        dc,
                        rest,
                    );
                    lemma_tok_views_split(mid.tokens@, self.tokens@);
                    lemma_tok_views_split(mid.comments@, self.comments@);
                }
                assert forall|i: int| 0 <= i < self.tokens@.len() implies (
                #[trigger] self.tokens@[i].token_type) != TokenType::Eof by {
                    if i < mid.tokens@.len() {
                        assert(self.tokens@.take(mid.tokens@.len() as int)[i] == self.tokens@[i]);
                        assert(mid.tokens@[i].token_type != TokenType::Eof);
                    }
                }
            }
            if let Err(e) = step {
                return Err(e);
            }
        }
        // close the stream with a synthetic end-of-input token
        let eof = Token::new(TokenType::Eof, String::new(), self.line);
        let ghost t1 = self.tokens@;
        self.tokens.push(eof);
        proof {
            assert(src.skip(self.current as int).len() == 0);
            lemma_tok_views_push(t1, self.tokens@.last());
            assert(tok_views(t1).push(self.tokens@.last()@) =~= tok_views(t1) + seq![
                self.tokens@.last()@,
            ]);
            assert(self.tokens@.last()@.lexeme =~= Seq::<char>::empty());
        }
        Ok(self.tokens.len())
    }

    #[verifier::loop_isolation(false)]
    #[verifier::rlimit(100)]
    fn scan_token(&mut self) -> (r: Result<(), ScanError>)
        requires
            old(self).wf(),
            old(self).start == old(self).current,
            old(self).current < old(self).source@.len(),
            old(self).source@.len() < usize::MAX,
        ensures
            final(self).wf(),
            final(self).source == old(self).source,
            old(self).current < final(self).current,
            final(self).tokens@.len() >= old(self).tokens@.len(),
            final(self).comments@.len() >= old(self).comments@.len(),
            final(self).tokens@.take(old(self).tokens@.len() as int) == old(self).tokens@,
            final(self).comments@.take(old(self).comments@.len() as int) == old(self).comments@,
            match r {
                Ok(_) => scan_rest(
                    old(self).source@.skip(old(self).current as int),
                    old(self).line as nat,
                ) == combine_out(
                    tok_views(final(self).tokens@.skip(old(self).tokens@.len() as int)),
                    tok_views(final(self).comments@.skip(old(self).comments@.len() as int)),
                    scan_rest(
                        final(self).source@.skip(final(self).current as int),
                        final(self).line as nat,
                    ),
                ),
                Err(_) => {
                    &&& scan_rest(
                        old(self).source@.skip(old(self).current as int),
                        old(self).line as nat,
                    ) == Option::<ScanOut>::None
                    &&& final(self).tokens@ == old(self).tokens@
                    &&& final(self).comments@ == old(self).comments@
                },
            },
            forall|i: int|
                old(self).tokens@.len() <= i < final(self).tokens@.len() ==> (
                #[trigger] final(self).tokens@[i].token_type) != TokenType::Eof
                    && final(self).tokens@[i].token_type != TokenType::Comment,
    {
        let ghost src = self.source@;
        let ghost cur0 = self.current as nat;
        let ghost line0 = self.line as nat;
        let ghost t0 = self.tokens@;
        let ghost c0 = self.comments@;
        let ghost srel = src.skip(cur0 as int);

        let c = self.advance();
        proof {
            assert(srel[0] == src[cur0 as int]);
            assert(srel.len() == src.len() - cur0);
            lemma_tok_views_same(t0);
            lemma_tok_views_same(c0);
        }
        if c == '(' {
            self.push_token(TokenType::ParenL);
            proof {
                lemma_branch_single(src, cur0, line0, t0, c0, self.tokens@, TokenType::ParenL, 1);
            }
            Ok(())
        } else if c == ')' {
            self.push_token(TokenType::ParenR);
            proof {
                lemma_branch_single(src, cur0, line0, t0, c0, self.tokens@, TokenType::ParenR, 1);
            }
            Ok(())
        } else if c == '{' {
            self.push_token(TokenType::BraceL);
            proof {
                lemma_branch_single(src, cur0, line0, t0, c0, self.tokens@, TokenType::BraceL, 1);
            }
            Ok(())
        } else if c == '}' {
            self.push_token(TokenType::BraceR);
            proof {
                lemma_branch_single(src, cur0, line0, t0, c0, self.tokens@, TokenType::BraceR, 1);
            }
            Ok(())
        } else if c == '[' {
            self.push_token(TokenType::BracketL);
            proof {
                lemma_branch_single(src, cur0, line0, t0, c0, self.tokens@, TokenType::BracketL, 1);
            }
            Ok(())
        } else if c == ']' {
            self.push_token(TokenType::BracketR);
            proof {
                lemma_branch_single(src, cur0, line0, t0, c0, self.tokens@, TokenType::BracketR, 1);
            }
            Ok(())
        } else if c == ',' {
            self.push_token(TokenType::Comma);
            proof {
                lemma_branch_single(src, cur0, line0, t0, c0, self.tokens@, TokenType::Comma, 1);
            }
            Ok(())
        } else if c == '+' {
            self.push_token(TokenType::Plus);
            proof {
                lemma_branch_single(src, cur0, line0, t0, c0, self.tokens@, TokenType::Plus, 1);
            }
            Ok(())
        } else if c == '&' {
            self.push_token(TokenType::Amp);
            proof {
                lemma_branch_single(src, cur0, line0, t0, c0, self.tokens@, TokenType::Amp, 1);
            }
            Ok(())
        } else if c == '|' {
            self.push_token(TokenType::Bar);
            proof {
                lemma_branch_single(src, cur0, line0, t0, c0, self.tokens@, TokenType::Bar, 1);
            }
            Ok(())
        } else if c == '%' {
            self.push_token(TokenType::Perc);
            proof {
                lemma_branch_single(src, cur0, line0, t0, c0, self.tokens@, TokenType::Perc, 1);
            }
            Ok(())
        } else if c == '^' {
            self.push_token(TokenType::Hat);
            proof {
                lemma_branch_single(src, cur0, line0, t0, c0, self.tokens@, TokenType::Hat, 1);
            }
            Ok(())
        } else if c == ';' {
            self.push_token(TokenType::SemiColon);
            proof {
                lemma_branch_single(src, cur0, line0, t0, c0, self.tokens@, TokenType::SemiColon, 1);
            }
            Ok(())
        } else if c == '*' {
            self.push_token(TokenType::Aster);
            proof {
                lemma_branch_single(src, cur0, line0, t0, c0, self.tokens@, TokenType::Aster, 1);
            }
            Ok(())
        } else if c == '#' {
            self.push_token(TokenType::Opus);
            proof {
                lemma_branch_single(src, cur0, line0, t0, c0, self.tokens@, TokenType::Opus, 1);
            }
            Ok(())
        } else if c == '.' {
            proof {
                if cur0 + 1 < src.len() {
                    assert(srel[1] == src[cur0 as int + 1]);
                }
                if cur0 + 2 < src.len() {
                    assert(srel[2] == src[cur0 as int + 2]);
                }
            }
            if self.test('.') {
                if self.test('.') {
                    self.push_token(TokenType::Concat);
                    proof {
                        lemma_branch_single(
                            src,
                            cur0,
                            line0,
                            t0,
                            c0,
                            self.tokens@,
                            TokenType::Concat,
                            3,
                        );
                    }
                    Ok(())
                } else {
                    self.push_token(TokenType::Dots);
                    proof {
                        lemma_branch_single(
                            src,
                            cur0,
                            line0,
                            t0,
                            c0,
                            self.tokens@,
                            TokenType::Dots,
                            2,
                        );
                    }
                    Ok(())
                }
            } else {
                self.push_token(TokenType::Period);
                proof {
                    lemma_branch_single(src, cur0, line0, t0, c0, self.tokens@, TokenType::Period, 1);
                }
                Ok(())
            }
        } else if c == '-' {
            proof {
                if cur0 + 1 < src.len() {
                    assert(srel[1] == src[cur0 as int + 1]);
                }
            }
            if self.test('-') {
                // line comment: consume to just before the newline or
                // to end of input, and keep it apart from the tokens
                let mut stop = false;
                while !stop
                    invariant
                        self.source@ == src,
                        self.source == old(self).source,
                        self.start == cur0,
                        self.line == line0,
                        self.tokens@ == t0,
                        self.comments@ == c0,
                        cur0 + 2 <= self.current <= src.len(),
                        find_nl(srel, 2) == find_nl(srel, (self.current - cur0) as nat),
                        stop ==> find_nl(srel, 2) == self.current - cur0,
                    decreases src.len() - self.current, (if stop { 0int } else { 1int }),
                {
                    if self.is_at_end() {
                        stop = true;
                    } else {
                        let p = self.peek();
                        proof {
                            assert(srel[self.current - cur0] == src[self.current as int]);
                        }
                        if p == '\n' {
                            stop = true;
                        } else {
                            self.advance();
                        }
                    }
                }
                let ghost j = (self.current - cur0) as nat;
                self.push_comment();
                proof {
                    lemma_branch_comment(src, cur0, line0, t0, c0, self.comments@, j);
                }
                Ok(())
            } else {
                self.push_token(TokenType::Minus);
                proof {
                    lemma_branch_single(src, cur0, line0, t0, c0, self.tokens@, TokenType::Minus, 1);
                }
                Ok(())
            }
        } else if c == ':' {
            proof {
                if cur0 + 1 < src.len() {
                    assert(srel[1] == src[cur0 as int + 1]);
                }
            }
            if self.test(':') {
                self.push_token(TokenType::DbColon);
                proof {
                    lemma_branch_single(src, cur0, line0, t0, c0, self.tokens@, TokenType::DbColon, 2);
                }
                Ok(())
            } else {
                self.push_token(TokenType::Colon);
                proof {
                    lemma_branch_single(src, cur0, line0, t0, c0, self.tokens@, TokenType::Colon, 1);
                }
                Ok(())
            }
        } else if c == '~' {
            proof {
                if cur0 + 1 < src.len() {
                    assert(srel[1] == src[cur0 as int + 1]);
                }
            }
            if self.test('=') {
                self.push_token(TokenType::Ne);
                proof {
                    lemma_branch_single(src, cur0, line0, t0, c0, self.tokens@, TokenType::Ne, 2);
                }
                Ok(())
            } else {
                self.push_token(TokenType::Tilda);
                proof {
                    lemma_branch_single(src, cur0, line0, t0, c0, self.tokens@, TokenType::Tilda, 1);
                }
                Ok(())
            }
        } else if c == '=' {
            proof {
                if cur0 + 1 < src.len() {
                    assert(srel[1] == src[cur0 as int + 1]);
                }
            }
            if self.test('=') {
                self.push_token(TokenType::Eql);
                proof {
                    lemma_branch_single(src, cur0, line0, t0, c0, self.tokens@, TokenType::Eql, 2);
                }
                Ok(())
            } else {
                self.push_token(TokenType::Assign);
                proof {
                    lemma_branch_single(src, cur0, line0, t0, c0, self.tokens@, TokenType::Assign, 1);
                }
                Ok(())
            }
        } else if c == '<' {
            proof {
                if cur0 + 1 < src.len() {
                    assert(srel[1] == src[cur0 as int + 1]);
                }
            }
            if self.test('<') {
                self.push_token(TokenType::ShL);
                proof {
                    lemma_branch_single(src, cur0, line0, t0, c0, self.tokens@, TokenType::ShL, 2);
                }
                Ok(())
            } else if self.test('=') {
                self.push_token(TokenType::Le);
                proof {
                    lemma_branch_single(src, cur0, line0, t0, c0, self.tokens@, TokenType::Le, 2);
                }
                Ok(())
            } else {
                self.push_token(TokenType::Less);
                proof {
                    lemma_branch_single(src, cur0, line0, t0, c0, self.tokens@, TokenType::Less, 1);
                }
                Ok(())
            }
        } else if c == '>' {
            proof {
                if cur0 + 1 < src.len() {
                    assert(srel[1] == src[cur0 as int + 1]);
                }
            }
            if self.test('>') {
                self.push_token(TokenType::ShR);
                proof {
                    lemma_branch_single(src, cur0, line0, t0, c0, self.tokens@, TokenType::ShR, 2);
                }
                Ok(())
            } else if self.test('=') {
                self.push_token(TokenType::Ge);
                proof {
                    lemma_branch_single(src, cur0, line0, t0, c0, self.tokens@, TokenType::Ge, 2);
                }
                Ok(())
            } else {
                self.push_token(TokenType::Greater);
                proof {
                    lemma_branch_single(src, cur0, line0, t0, c0, self.tokens@, TokenType::Greater, 1);
                }
                Ok(())
            }
        } else if c == '/' {
            proof {
                if cur0 + 1 < src.len() {
                    assert(srel[1] == src[cur0 as int + 1]);
                }
            }
            if self.test('/') {
                self.push_token(TokenType::IDiv);
                proof {
                    lemma_branch_single(src, cur0, line0, t0, c0, self.tokens@, TokenType::IDiv, 2);
                }
                Ok(())
            } else {
                self.push_token(TokenType::Slash);
                proof {
                    lemma_branch_single(src, cur0, line0, t0, c0, self.tokens@, TokenType::Slash, 1);
                }
                Ok(())
            }
        } else if c == ' ' || c == '\r' || c == '\t' {
            proof {
                lemma_branch_silent(src, cur0, line0, line0, t0, c0);
            }
            Ok(())
        } else if c == '\n' {
            self.line = self.line + 1;
            proof {
                lemma_branch_silent(src, cur0, line0, line0 + 1, t0, c0);
            }
            Ok(())
        } else if c == '\'' || c == '"' {
            self.string(c)
        } else if is_digit(c) {
            self.number();
            Ok(())
        } else if is_alpha(c) {
            self.name();
            Ok(())
        } else {
            Err(ScanError::raise())
        }
    }

    fn push_token(&mut self, token_type: TokenType)
        requires
            old(self).start <= old(self).current <= old(self).source@.len(),
        ensures
            *final(self) == (Scanner {
                tokens: final(self).tokens,
                ..*old(self)
            }),
            final(self).tokens@ == old(self).tokens@.push(
                Token {
                    token_type,
                    lexeme: final(self).tokens@.last().lexeme,
                    line: old(self).line,
                },
            ),
            final(self).tokens@.last()@ == (SpecToken {
                kind: token_type,
                lexeme: old(self).source@.subrange(old(self).start as int, old(self).current as int),
                line: old(self).line as nat,
            }),
    {
        let lexeme: String = self.source.substring_char(self.start, self.current).to_owned();
        self.tokens.push(Token { token_type, lexeme, line: self.line });
    }

    fn push_comment(&mut self)
        requires
            old(self).start <= old(self).current <= old(self).source@.len(),
        ensures
            *final(self) == (Scanner {
                comments: final(self).comments,
                ..*old(self)
            }),
            final(self).comments@ == old(self).comments@.push(
                Token {
                    token_type: TokenType::Comment,
                    lexeme: final(self).comments@.last().lexeme,
                    line: old(self).line,
                },
            ),
            final(self).comments@.last()@ == (SpecToken {
                kind: TokenType::Comment,
                lexeme: old(self).source@.subrange(old(self).start as int, old(self).current as int),
                line: old(self).line as nat,
            }),
    {
        let lexeme: String = self.source.substring_char(self.start, self.current).to_owned();
        self.comments.push(Token { token_type: TokenType::Comment, lexeme, line: self.line });
    }

    /// Rest of a string literal, the opening quote already consumed.
    /// The closing quote is mandatory; a raw line break in the body or
    /// end of input before the quote is a lexical error.
    #[verifier::loop_isolation(false)]
    fn string(&mut self, quote: char) -> (r: Result<(), ScanError>)
        requires
            old(self).wf(),
            old(self).start + 1 == old(self).current,
            old(self).current <= old(self).source@.len(),
            old(self).source@.len() < usize::MAX,
            old(self).source@[old(self).start as int] == quote,
            quote == '\'' || quote == '"',
        ensures
            final(self).wf(),
            final(self).source == old(self).source,
            old(self).current <= final(self).current,
            final(self).tokens@.len() >= old(self).tokens@.len(),
            final(self).comments@.len() >= old(self).comments@.len(),
            final(self).tokens@.take(old(self).tokens@.len() as int) == old(self).tokens@,
            final(self).comments@.take(old(self).comments@.len() as int) == old(self).comments@,
            match r {
                Ok(_) => scan_rest(
                    old(self).source@.skip(old(self).start as int),
                    old(self).line as nat,
                ) == combine_out(
                    tok_views(final(self).tokens@.skip(old(self).tokens@.len() as int)),
                    tok_views(final(self).comments@.skip(old(self).comments@.len() as int)),
                    scan_rest(
                        final(self).source@.skip(final(self).current as int),
                        final(self).line as nat,
                    ),
                ),
                Err(_) => {
                    &&& scan_rest(
                        old(self).source@.skip(old(self).start as int),
                        old(self).line as nat,
                    ) == Option::<ScanOut>::None
                    &&& final(self).tokens@ == old(self).tokens@
                    &&& final(self).comments@ == old(self).comments@
                },
            },
            forall|i: int|
                old(self).tokens@.len() <= i < final(self).tokens@.len() ==> (
                #[trigger] final(self).tokens@[i].token_type) != TokenType::Eof
                    && final(self).tokens@[i].token_type != TokenType::Comment,
    {
        let ghost src = self.source@;
        let ghost cur0 = self.start as nat;
        let ghost line0 = self.line as nat;
        let ghost t0 = self.tokens@;
        let ghost c0 = self.comments@;
        let ghost srel = src.skip(cur0 as int);
        proof {
            assert(srel[0] == src[cur0 as int]);
            lemma_tok_views_same(t0);
            lemma_tok_views_same(c0);
        }
        let mut stop = false;
        while !stop
            invariant
                self.source@ == src,
                self.source == old(self).source,
                self.start == cur0,
                self.line == line0,
                self.tokens@ == t0,
                self.comments@ == c0,
                cur0 + 1 <= self.current <= src.len(),
                find_str_end(srel, 1, quote) == find_str_end(
                    srel,
                    (self.current - cur0) as nat,
                    quote,
                ),
                stop ==> self.current < src.len() && srel[self.current - cur0] == quote
                    && find_str_end(srel, 1, quote) == self.current - cur0,
            decreases src.len() - self.current, (if stop { 0int } else { 1int }),
        {
            if self.is_at_end() {
                // unterminated string
                proof {
                    assert(find_str_end(srel, (self.current - cur0) as nat, quote) == srel.len());
                }
                return Err(ScanError::raise());
            }
            let p = self.peek();
            proof {
                assert(srel[self.current - cur0] == src[self.current as int]);
            }
            if p == quote {
                stop = true;
            } else if p == '\n' {
                // a string literal cannot contain a raw line break
                return Err(ScanError::raise());
            } else {
                self.advance();
            }
        }
        let ghost j = (self.current - cur0) as nat;
        // the closing quote
        self.advance();
        self.push_token(TokenType::StringLit);
        proof {
            lemma_branch_single(src, cur0, line0, t0, c0, self.tokens@, TokenType::StringLit, j + 1);
        }
        Ok(())
    }

    /// Rest of a number literal, the first digit already consumed: a
    /// run of digits, optionally followed by a fractional part, which
    /// decides `Int` against `Float`.
    #[verifier::loop_isolation(false)]
    fn number(&mut self)
        requires
            old(self).wf(),
            old(self).start + 1 == old(self).current,
            old(self).current <= old(self).source@.len(),
            old(self).source@.len() < usize::MAX,
            spec_is_digit(old(self).source@[old(self).start as int]),
        ensures
            final(self).wf(),
            final(self).source == old(self).source,
            old(self).current <= final(self).current,
            final(self).tokens@.len() >= old(self).tokens@.len(),
            final(self).comments@.len() >= old(self).comments@.len(),
            final(self).tokens@.take(old(self).tokens@.len() as int) == old(self).tokens@,
            final(self).comments@.take(old(self).comments@.len() as int) == old(self).comments@,
            scan_rest(old(self).source@.skip(old(self).start as int), old(self).line as nat)
                == combine_out(
                tok_views(final(self).tokens@.skip(old(self).tokens@.len() as int)),
                tok_views(final(self).comments@.skip(old(self).comments@.len() as int)),
                scan_rest(
                    final(self).source@.skip(final(self).current as int),
                    final(self).line as nat,
                ),
            ),
            forall|i: int|
                old(self).tokens@.len() <= i < final(self).tokens@.len() ==> (
                #[trigger] final(self).tokens@[i].token_type) != TokenType::Eof
                    && final(self).tokens@[i].token_type != TokenType::Comment,
    {
        let ghost src = self.source@;
        let ghost cur0 = self.start as nat;
        let ghost line0 = self.line as nat;
        let ghost t0 = self.tokens@;
        let ghost c0 = self.comments@;
        let ghost srel = src.skip(cur0 as int);
        proof {
            assert(srel[0] == src[cur0 as int]);
            lemma_tok_views_same(t0);
            lemma_tok_views_same(c0);
        }
        let mut stop = false;
        while !stop
            invariant
                self.source@ == src,
                self.source == old(self).source,
                self.start == cur0,
                self.line == line0,
                self.tokens@ == t0,
                self.comments@ == c0,
                cur0 + 1 <= self.current <= src.len(),
                digits_end(srel, 1) == digits_end(srel, (self.current - cur0) as nat),
                stop ==> digits_end(srel, 1) == self.current - cur0,
            decreases src.len() - self.current, (if stop { 0int } else { 1int }),
        {
            let p = self.peek();
            proof {
                if self.current < src.len() {
                    assert(srel[self.current - cur0] == src[self.current as int]);
                }
            }
            if !is_digit(p) {
                stop = true;
            } else {
                self.advance();
            }
        }
        let ghost k = (self.current - cur0) as nat;
        let p = self.peek();
        let pn = self.peek_next();
        proof {
            if self.current < src.len() {
                assert(srel[self.current - cur0] == src[self.current as int]);
            }
            if self.current + 1 < src.len() {
                assert(srel[self.current + 1 - cur0] == src[self.current + 1]);
            }
        }
        if p == '.' && is_digit(pn) {
            // consume the "."
            self.advance();
            let mut stop2 = false;
            while !stop2
                invariant
                    self.source@ == src,
                    self.source == old(self).source,
                    self.start == cur0,
                    self.line == line0,
                    self.tokens@ == t0,
                    self.comments@ == c0,
                    cur0 + k + 1 <= self.current <= src.len(),
                    digits_end(srel, k + 1) == digits_end(srel, (self.current - cur0) as nat),
                    stop2 ==> digits_end(srel, k + 1) == self.current - cur0,
                decreases src.len() - self.current, (if stop2 { 0int } else { 1int }),
            {
                let p2 = self.peek();
                proof {
                    if self.current < src.len() {
                        assert(srel[self.current - cur0] == src[self.current as int]);
                    }
                }
                if !is_digit(p2) {
                    stop2 = true;
                } else {
                    self.advance();
                }
            }
            let ghost k2 = (self.current - cur0) as nat;
            self.push_token(TokenType::Float);
            proof {
                lemma_branch_single(src, cur0, line0, t0, c0, self.tokens@, TokenType::Float, k2);
            }
        } else {
            self.push_token(TokenType::Int);
            proof {
                lemma_branch_single(src, cur0, line0, t0, c0, self.tokens@, TokenType::Int, k);
            }
        }
    }

    /// Rest of an identifier, the first character already consumed: a
    /// run of letters, digits and underscores, reclassified against the
    /// keyword table.
    #[verifier::loop_isolation(false)]
    fn name(&mut self)
        requires
            old(self).wf(),
            old(self).start + 1 == old(self).current,
            old(self).current <= old(self).source@.len(),
            old(self).source@.len() < usize::MAX,
            spec_is_alpha(old(self).source@[old(self).start as int]),
        ensures
            final(self).wf(),
            final(self).source == old(self).source,
            old(self).current <= final(self).current,
            final(self).tokens@.len() >= old(self).tokens@.len(),
            final(self).comments@.len() >= old(self).comments@.len(),
            final(self).tokens@.take(old(self).tokens@.len() as int) == old(self).tokens@,
            final(self).comments@.take(old(self).comments@.len() as int) == old(self).comments@,
            scan_rest(old(self).source@.skip(old(self).start as int), old(self).line as nat)
                == combine_out(
                tok_views(final(self).tokens@.skip(old(self).tokens@.len() as int)),
                tok_views(final(self).comments@.skip(old(self).comments@.len() as int)),
                scan_rest(
                    final(self).source@.skip(final(self).current as int),
                    final(self).line as nat,
                ),
            ),
            forall|i: int|
                old(self).tokens@.len() <= i < final(self).tokens@.len() ==> (
                #[trigger] final(self).tokens@[i].token_type) != TokenType::Eof
                    && final(self).tokens@[i].token_type != TokenType::Comment,
    {
        let ghost src = self.source@;
        let ghost cur0 = self.start as nat;
        let ghost line0 = self.line as nat;
        let ghost t0 = self.tokens@;
        let ghost c0 = self.comments@;
        let ghost srel = src.skip(cur0 as int);
        proof {
            assert(srel[0] == src[cur0 as int]);
            lemma_tok_views_same(t0);
            lemma_tok_views_same(c0);
        }
        let mut stop = false;
        while !stop
            invariant
                self.source@ == src,
                self.source == old(self).source,
                self.start == cur0,
                self.line == line0,
                self.tokens@ == t0,
                self.comments@ == c0,
                cur0 + 1 <= self.current <= src.len(),
                name_end(srel, 1) == name_end(srel, (self.current - cur0) as nat),
                stop ==> name_end(srel, 1) == self.current - cur0,
            decreases src.len() - self.current, (if stop { 0int } else { 1int }),
        {
            let p = self.peek();
            proof {
                if self.current < src.len() {
                    assert(srel[self.current - cur0] == src[self.current as int]);
                }
            }
            if !is_alphanumeric(p) {
                stop = true;
            } else {
                self.advance();
            }
        }
        let ghost k = (self.current - cur0) as nat;
        let text = self.source.substring_char(self.start, self.current);
        let kind = keyword_kind(text);
        proof {
            lemma_skip_take(src, cur0 as int, k as int);
        }
        self.push_token(kind);
        proof {
            lemma_branch_single(src, cur0, line0, t0, c0, self.tokens@, kind, k);
        }
    }
}

/// The kind-only projection of a token sequence: what the parser sees,
/// since token equality is defined by kind alone.
pub open spec fn kinds_of(ts: Seq<SpecToken>) -> Seq<TokenType> {
    ts.map_values(|t: SpecToken| t.kind)
}

/// The lexeme projection of a token sequence.
pub open spec fn lexemes_of(ts: Seq<SpecToken>) -> Seq<Seq<char>> {
    ts.map_values(|t: SpecToken| t.lexeme)
}

pub broadcast proof fn lemma_kinds_of_concat(a: Seq<SpecToken>, b: Seq<SpecToken>)
    ensures
        #[trigger] kinds_of(a + b) == kinds_of(a) + kinds_of(b),
{
    assert(kinds_of(a + b) =~= kinds_of(a) + kinds_of(b));
}

pub broadcast proof fn lemma_lexemes_of_concat(a: Seq<SpecToken>, b: Seq<SpecToken>)
    ensures
        #[trigger] lexemes_of(a + b) == lexemes_of(a) + lexemes_of(b),
{
    assert(lexemes_of(a + b) =~= lexemes_of(a) + lexemes_of(b));
}

pub broadcast proof fn lemma_kinds_of_single(t: SpecToken)
    ensures
        #[trigger] kinds_of(seq![t]) == seq![t.kind],
{
    assert(kinds_of(seq![t]) =~= seq![t.kind]);
}

pub broadcast proof fn lemma_lexemes_of_single(t: SpecToken)
    ensures
        #[trigger] lexemes_of(seq![t]) == seq![t.lexeme],
{
    assert(lexemes_of(seq![t]) =~= seq![t.lexeme]);
}

/// Whether the two scans agree once line numbers are set aside: they
/// succeed or fail alike, and their tokens and comments carry the same
/// kinds and the same lexemes.
pub open spec fn agree_up_to_lines(r1: Option<ScanOut>, r2: Option<ScanOut>) -> bool {
    &&& (r1 is Some <==> r2 is Some)
    &&& (r1 is Some ==> {
        let o1 = r1->Some_0;
        let o2 = r2->Some_0;
        &&& kinds_of(o1.toks) == kinds_of(o2.toks)
        &&& lexemes_of(o1.toks) == lexemes_of(o2.toks)
        &&& kinds_of(o1.comments) == kinds_of(o2.comments)
        &&& lexemes_of(o1.comments) == lexemes_of(o2.comments)
    })
}

/// How many characters the head step of the scan takes off `s`. This
/// count does not depend on the line counter.
pub open spec fn consumed_at(s: Seq<char>) -> nat {
    if s.len() == 0 {
        0
    } else {
        let c = s[0];
        if c == '.' {
            if s.len() >= 2 && s[1] == '.' {
                if s.len() >= 3 && s[2] == '.' {
                    3
                } else {
                    2
                }
            } else {
                1
            }
        } else if c == '-' {
            if s.len() >= 2 && s[1] == '-' {
                find_nl(s, 2)
            } else {
                1
            }
        } else if c == ':' {
            if s.len() >= 2 && s[1] == ':' {
                2
            } else {
                1
            }
        } else if c == '~' || c == '=' {
            if s.len() >= 2 && s[1] == '=' {
                2
            } else {
                1
            }
        } else if c == '<' || c == '>' {
            if s.len() >= 2 && (s[1] == c || s[1] == '=') {
                2
            } else {
                1
            }
        } else if c == '/' {
            if s.len() >= 2 && s[1] == '/' {
                2
            } else {
                1
            }
        } else if c == '\'' || c == '"' {
            // on an unterminated string the scan fails; the count is
            // then immaterial and clipped to the input
            if find_str_end(s, 1, c) + 1 <= s.len() {
                find_str_end(s, 1, c) + 1
            } else {
                s.len()
            }
        } else if spec_is_digit(c) {
            let k = digits_end(s, 1);
            if k < s.len() && s[k as int] == '.' && k + 1 < s.len() && spec_is_digit(
                s[k + 1 as int],
            ) {
                digits_end(s, k + 1)
            } else {
                k
            }
        } else if spec_is_alpha(c) {
            name_end(s, 1)
        } else {
            1
        }
    }
}

/// Every step of the scan consumes at least one character and at most
/// the whole input.
proof fn lemma_consumed_at_bounds(s: Seq<char>)
    requires
        s.len() > 0,
    ensures
        1 <= consumed_at(s) <= s.len(),
{
    if s.len() >= 2 {
        lemma_find_nl_bounds(s, 2);
    }
    lemma_find_str_end_bounds(s, 1, s[0]);
    lemma_digits_end_bounds(s, 1);
    lemma_name_end_bounds(s, 1);
    let k = digits_end(s, 1);
    if k + 1 <= s.len() {
        lemma_digits_end_bounds(s, k + 1);
    }
}

/// Gluing the induction hypothesis back through one head step whose
/// consumed length does not depend on the line counter.
proof fn line_independent_glue(s: Seq<char>, l1: nat, l2: nat, n: nat)
    requires
        s.len() > 0,
        1 <= n <= s.len(),
        n == consumed_at(s),
        agree_up_to_lines(scan_rest(s.skip(n as int), l1), scan_rest(s.skip(n as int), l2)),
        ({
            let c = s[0];
            c != '\n' && c != ' ' && c != '\r' && c != '\t'
        }),
    ensures
        agree_up_to_lines(scan_rest(s, l1), scan_rest(s, l2)),
{
    broadcast use lemma_kinds_of_concat, lemma_lexemes_of_concat, lemma_kinds_of_single, lemma_lexemes_of_single;

    let r1 = scan_rest(s.skip(n as int), l1);
    let r2 = scan_rest(s.skip(n as int), l2);
    if r1 is Some {
        assert(agree_up_to_lines(scan_rest(s, l1), scan_rest(s, l2)));
    } else {
        assert(scan_rest(s, l1) is None);
        assert(scan_rest(s, l2) is None);
    }
}

/// The line counter feeds only the `line` fields of the output: two
/// scans of the same text from different lines succeed or fail alike,
/// and produce the same kinds and the same lexemes throughout.
pub proof fn lemma_scan_line_independent(s: Seq<char>, l1: nat, l2: nat)
    ensures
        agree_up_to_lines(scan_rest(s, l1), scan_rest(s, l2)),
    decreases s.len(),
{
    broadcast use lemma_kinds_of_concat, lemma_lexemes_of_concat, lemma_kinds_of_single, lemma_lexemes_of_single;

    if s.len() == 0 {
        let o1 = scan_rest(s, l1)->Some_0;
        let o2 = scan_rest(s, l2)->Some_0;
        assert(kinds_of(o1.toks) =~= kinds_of(o2.toks));
        assert(lexemes_of(o1.toks) =~= lexemes_of(o2.toks));
        assert(kinds_of(o1.comments) =~= kinds_of(o2.comments));
        assert(lexemes_of(o1.comments) =~= lexemes_of(o2.comments));
    } else {
        let c = s[0];
        lemma_consumed_at_bounds(s);
        if c == '\n' {
            lemma_scan_line_independent(s.skip(1), l1 + 1, l2 + 1);
        } else if c == ' ' || c == '\r' || c == '\t' {
            lemma_scan_line_independent(s.skip(1), l1, l2);
        } else {
            let n = consumed_at(s);
            lemma_scan_line_independent(s.skip(n as int), l1, l2);
            line_independent_glue(s, l1, l2, n);
        }
    }
}


// ------------------------------------------------------------------
// Inserting or removing whitespace and comments between tokens
// ------------------------------------------------------------------

/// Inserting a space, tab or carriage return in front of the remaining
/// input changes nothing in the scan at all.
pub proof fn lemma_ws_prepend(s: Seq<char>, line: nat, c: char)
    requires
        c == ' ' || c == '\r' || c == '\t',
    ensures
        scan_rest(seq![c] + s, line) == scan_rest(s, line),
{
    let t = seq![c] + s;
    assert(t[0] == c);
    assert(t.skip(1) =~= s);
}

/// Inserting a blank line in front of the remaining input moves the
/// line counter but leaves kinds and lexemes unchanged.
pub proof fn lemma_blank_line_prepend(s: Seq<char>, line: nat)
    ensures
        scan_rest(seq!['\n'] + s, line) == scan_rest(s, line + 1),
        agree_up_to_lines(scan_rest(seq!['\n'] + s, line), scan_rest(s, line)),
{
    let t = seq!['\n'] + s;
    assert(t[0] == '\n');
    assert(t.skip(1) =~= s);
    lemma_scan_line_independent(s, line + 1, line);
}

proof fn lemma_find_nl_run(t: Seq<char>, i: nat, m: nat)
    requires
        i <= m <= t.len(),
        forall|j: int| i <= j < m ==> t[j] != '\n',
        m == t.len() || t[m as int] == '\n',
    ensures
        find_nl(t, i) == m,
    decreases m - i,
{
    if i < m {
        lemma_find_nl_run(t, i + 1, m);
    }
}

/// Inserting a line comment where a line ends (just before a newline,
/// or at the very end of the input) adds that comment to the comment
/// list and leaves the token stream untouched.
pub proof fn lemma_comment_prepend(s: Seq<char>, line: nat, body: Seq<char>)
    requires
        forall|i: int| 0 <= i < body.len() ==> body[i] != '\n',
        s.len() == 0 || s[0] == '\n',
    ensures
        scan_rest(seq!['-', '-'] + body + s, line) == push_com(
            SpecToken { kind: TokenType::Comment, lexeme: seq!['-', '-'] + body, line },
            scan_rest(s, line),
        ),
{
    let com = seq!['-', '-'] + body;
    let t = com + s;
    assert(t[0] == '-');
    assert(t[1] == '-');
    let m = com.len();
    assert forall|j: int| 2 <= j < m implies t[j] != '\n' by {
        assert(t[j] == body[j - 2]);
    }
    lemma_find_nl_run(t, 2, m);
    assert(t.take(m as int) =~= com);
    assert(t.skip(m as int) =~= s);
}

// ------------------------------------------------------------------
// Re-lexing a well-formed lexeme in isolation
// ------------------------------------------------------------------

/// The shape of the text a token of each kind is read from. `Eof` owns
/// the empty lexeme; a comment is never a token.
pub open spec fn wf_lexeme(k: TokenType, lex: Seq<char>) -> bool {
    match k {
        TokenType::Opus => lex == seq!['#'],
        TokenType::Perc => lex == seq!['%'],
        TokenType::Amp => lex == seq!['&'],
        TokenType::ParenL => lex == seq!['('],
        TokenType::ParenR => lex == seq![')'],
        TokenType::Aster => lex == seq!['*'],
        TokenType::Plus => lex == seq!['+'],
        TokenType::Comma => lex == seq![','],
        TokenType::Minus => lex == seq!['-'],
        TokenType::Period => lex == seq!['.'],
        TokenType::Slash => lex == seq!['/'],
        TokenType::Colon => lex == seq![':'],
        TokenType::SemiColon => lex == seq![';'],
        TokenType::Less => lex == seq!['<'],
        TokenType::Assign => lex == seq!['='],
        TokenType::Greater => lex == seq!['>'],
        TokenType::BracketL => lex == seq!['['],
        TokenType::BracketR => lex == seq![']'],
        TokenType::Hat => lex == seq!['^'],
        TokenType::BraceL => lex == seq!['{'],
        TokenType::Bar => lex == seq!['|'],
        TokenType::BraceR => lex == seq!['}'],
        TokenType::Tilda => lex == seq!['~'],
        TokenType::IDiv => lex == seq!['/', '/'],
        TokenType::Concat => lex == seq!['.', '.', '.'],
        TokenType::Dots => lex == seq!['.', '.'],
        TokenType::Eql => lex == seq!['=', '='],
        TokenType::Ge => lex == seq!['>', '='],
        TokenType::Le => lex == seq!['<', '='],
        TokenType::Ne => lex == seq!['~', '='],
        TokenType::ShL => lex == seq!['<', '<'],
        TokenType::ShR => lex == seq!['>', '>'],
        TokenType::DbColon => lex == seq![':', ':'],
        TokenType::And => lex == "and"@,
        TokenType::Break => lex == "break"@,
        TokenType::Do => lex == "do"@,
        TokenType::Else => lex == "else"@,
        TokenType::Elseif => lex == "elseif"@,
        TokenType::End => lex == "end"@,
        TokenType::False => lex == "false"@,
        TokenType::For => lex == "for"@,
        TokenType::Function => lex == "function"@,
        TokenType::Goto => lex == "goto"@,
        TokenType::If => lex == "if"@,
        TokenType::In => lex == "in"@,
        TokenType::Local => lex == "local"@,
        TokenType::Nil => lex == "nil"@,
        TokenType::Not => lex == "not"@,
        TokenType::Or => lex == "or"@,
        TokenType::Repeat => lex == "repeat"@,
        TokenType::Return => lex == "return"@,
        TokenType::Then => lex == "then"@,
        TokenType::True => lex == "true"@,
        TokenType::Until => lex == "until"@,
        TokenType::While => lex == "while"@,
        TokenType::Int => lex.len() >= 1 && (forall|i: int|
            0 <= i < lex.len() ==> spec_is_digit(lex[i])),
        TokenType::Float => exists|d: int|
            {
                &&& 1 <= d <= lex.len() - 2
                &&& lex[d] == '.'
                &&& (forall|i: int| 0 <= i < d ==> spec_is_digit(#[trigger] lex[i]))
                &&& (forall|i: int| d < i < lex.len() ==> spec_is_digit(#[trigger] lex[i]))
            },
        TokenType::Name => lex.len() >= 1 && spec_is_alpha(lex[0]) && (forall|i: int|
            1 <= i < lex.len() ==> spec_is_alnum(lex[i])) && spec_keyword(lex)
            == TokenType::Name,
        TokenType::StringLit => lex.len() >= 2 && (lex[0] == '\'' || lex[0] == '"')
            && lex.last() == lex[0] && (forall|i: int|
            1 <= i < lex.len() - 1 ==> #[trigger] lex[i] != lex[0] && lex[i] != '\n'),
        TokenType::Eof => lex == Seq::<char>::empty(),
        TokenType::Comment => false,
    }
}

proof fn lemma_digits_end_run(t: Seq<char>, i: nat, m: nat)
    requires
        i <= m <= t.len(),
        forall|j: int| i <= j < m ==> spec_is_digit(t[j]),
        m == t.len() || !spec_is_digit(t[m as int]),
    ensures
        digits_end(t, i) == m,
    decreases m - i,
{
    if i < m {
        lemma_digits_end_run(t, i + 1, m);
    }
}

proof fn lemma_name_end_run(t: Seq<char>, i: nat, m: nat)
    requires
        i <= m <= t.len(),
        forall|j: int| i <= j < m ==> spec_is_alnum(t[j]),
        m == t.len() || !spec_is_alnum(t[m as int]),
    ensures
        name_end(t, i) == m,
    decreases m - i,
{
    if i < m {
        lemma_name_end_run(t, i + 1, m);
    }
}

proof fn lemma_find_str_end_run(t: Seq<char>, i: nat, m: nat, quote: char)
    requires
        i <= m <= t.len(),
        forall|j: int| i <= j < m ==> t[j] != quote && t[j] != '\n',
        m == t.len() || t[m as int] == quote || t[m as int] == '\n',
    ensures
        find_str_end(t, i, quote) == m,
    decreases m - i,
{
    if i < m {
        lemma_find_str_end_run(t, i + 1, m, quote);
    }
}

/// The scan of a well-formed lexeme followed by one space: exactly one
/// token of the right kind, with the lexeme itself as its text, then
/// the end-of-input marker.
pub open spec fn single_token_scan(k: TokenType, lex: Seq<char>, line: nat) -> Option<ScanOut> {
    Option::Some(
        ScanOut {
            toks: seq![
                SpecToken { kind: k, lexeme: lex, line },
                SpecToken { kind: TokenType::Eof, lexeme: Seq::empty(), line },
            ],
            comments: Seq::empty(),
        },
    )
}

/// Re-lexing the lexeme of a name-shaped run (an identifier or a
/// keyword) in isolation.
proof fn lemma_name_like_round_trip(lex: Seq<char>, line: nat)
    requires
        lex.len() >= 1,
        spec_is_alpha(lex[0]),
        forall|i: int| 1 <= i < lex.len() ==> spec_is_alnum(lex[i]),
    ensures
        scan_rest(lex.push(' '), line) == single_token_scan(spec_keyword(lex), lex, line),
{
    let t = lex.push(' ');
    let m = lex.len();
    assert(t[0] == lex[0]);
    assert(t[m as int] == ' ');
    assert(!spec_is_alnum(' '));
    assert(!spec_is_digit(lex[0]) && lex[0] != '\'' && lex[0] != '"') by {
        assert(spec_is_alpha(lex[0]));
    }
    assert forall|j: int| 1 <= j < m implies spec_is_alnum(t[j]) by {
        assert(t[j] == lex[j]);
    }
    lemma_name_end_run(t, 1, m);
    assert(t.take(m as int) =~= lex);
    assert(t.skip(m as int) =~= seq![' ']);
    assert(seq![' '].skip(1) =~= Seq::<char>::empty());
    assert(scan_rest(seq![' '], line) == scan_rest(Seq::<char>::empty(), line));
    assert(scan_rest(t, line) == push_tok(
        SpecToken { kind: spec_keyword(lex), lexeme: lex, line },
        scan_rest(Seq::<char>::empty(), line),
    ));
    assert(seq![SpecToken { kind: spec_keyword(lex), lexeme: lex, line }] + seq![
        SpecToken { kind: TokenType::Eof, lexeme: Seq::empty(), line },
    ] =~= single_token_scan(spec_keyword(lex), lex, line)->Some_0.toks);
}

/// Re-lexing a fixed one-, two- or three-character operator lexeme.
proof fn lemma_op_round_trip(k: TokenType, lex: Seq<char>, line: nat)
    requires
        wf_lexeme(k, lex),
        1 <= lex.len(),
        scan_rest(lex.push(' '), line) == step_tok(
            k,
            lex.len(),
            lex.push(' '),
            line,
            scan_rest(lex.push(' ').skip(lex.len() as int), line),
        ),
    ensures
        scan_rest(lex.push(' '), line) == single_token_scan(k, lex, line),
{
    let t = lex.push(' ');
    let m = lex.len();
    assert(t.take(m as int) =~= lex);
    assert(t.skip(m as int) =~= seq![' ']);
    assert(seq![' '].skip(1) =~= Seq::<char>::empty());
    assert(scan_rest(seq![' '], line) == scan_rest(Seq::<char>::empty(), line));
    assert(seq![SpecToken { kind: k, lexeme: lex, line }] + seq![
        SpecToken { kind: TokenType::Eof, lexeme: Seq::empty(), line },
    ] =~= single_token_scan(k, lex, line)->Some_0.toks);
}

/// Re-lexing the lexeme of any well-formed token kind in isolation,
/// with trailing whitespace, reproduces a single token of that kind
/// (and the closing end-of-input marker).
#[verifier::rlimit(100)]
pub proof fn lemma_lexer_round_trip(k: TokenType, lex: Seq<char>, line: nat)
    requires
        wf_lexeme(k, lex),
        k != TokenType::Eof,
        k != TokenType::Comment,
    ensures
        scan_rest(lex.push(' '), line) == single_token_scan(k, lex, line),
{
    let t = lex.push(' ');
    let m = lex.len();
    assert(t[m as int] == ' ');
    match k {
        TokenType::Opus => {
            assert(t[0] == '#');
            lemma_op_round_trip(k, lex, line);
        },
        TokenType::Perc => {
            assert(t[0] == '%');
            lemma_op_round_trip(k, lex, line);
        },
        TokenType::Amp => {
            assert(t[0] == '&');
            lemma_op_round_trip(k, lex, line);
        },
        TokenType::ParenL => {
            assert(t[0] == '(');
            lemma_op_round_trip(k, lex, line);
        },
        TokenType::ParenR => {
            assert(t[0] == ')');
            lemma_op_round_trip(k, lex, line);
        },
        TokenType::Aster => {
            assert(t[0] == '*');
            lemma_op_round_trip(k, lex, line);
        },
        TokenType::Plus => {
            assert(t[0] == '+');
            lemma_op_round_trip(k, lex, line);
        },
        TokenType::Comma => {
            assert(t[0] == ',');
            lemma_op_round_trip(k, lex, line);
        },
        TokenType::Minus => {
            assert(t[0] == '-');
            lemma_op_round_trip(k, lex, line);
        },
        TokenType::Period => {
            assert(t[0] == '.');
            lemma_op_round_trip(k, lex, line);
        },
        TokenType::Slash => {
            assert(t[0] == '/');
            lemma_op_round_trip(k, lex, line);
        },
        TokenType::Colon => {
            assert(t[0] == ':');
            lemma_op_round_trip(k, lex, line);
        },
        TokenType::SemiColon => {
            assert(t[0] == ';');
            lemma_op_round_trip(k, lex, line);
        },
        TokenType::Less => {
            assert(t[0] == '<');
            lemma_op_round_trip(k, lex, line);
        },
        TokenType::Assign => {
            assert(t[0] == '=');
            lemma_op_round_trip(k, lex, line);
        },
        TokenType::Greater => {
            assert(t[0] == '>');
            lemma_op_round_trip(k, lex, line);
        },
        TokenType::BracketL => {
            assert(t[0] == '[');
            lemma_op_round_trip(k, lex, line);
        },
        TokenType::BracketR => {
            assert(t[0] == ']');
            lemma_op_round_trip(k, lex, line);
        },
        TokenType::Hat => {
            assert(t[0] == '^');
            lemma_op_round_trip(k, lex, line);
        },
        TokenType::BraceL => {
            assert(t[0] == '{');
            lemma_op_round_trip(k, lex, line);
        },
        TokenType::Bar => {
            assert(t[0] == '|');
            lemma_op_round_trip(k, lex, line);
        },
        TokenType::BraceR => {
            assert(t[0] == '}');
            lemma_op_round_trip(k, lex, line);
        },
        TokenType::Tilda => {
            assert(t[0] == '~');
            lemma_op_round_trip(k, lex, line);
        },
        TokenType::IDiv => {
            assert(t[0] == '/');
            assert(t[1] == '/');
            assert(t[2] == ' ');
            lemma_op_round_trip(k, lex, line);
        },
        TokenType::Dots => {
            assert(t[0] == '.');
            assert(t[1] == '.');
            assert(t[2] == ' ');
            lemma_op_round_trip(k, lex, line);
        },
        TokenType::Eql => {
            assert(t[0] == '=');
            assert(t[1] == '=');
            assert(t[2] == ' ');
            lemma_op_round_trip(k, lex, line);
        },
        TokenType::Ge => {
            assert(t[0] == '>');
            assert(t[1] == '=');
            assert(t[2] == ' ');
            lemma_op_round_trip(k, lex, line);
        },
        TokenType::Le => {
            assert(t[0] == '<');
            assert(t[1] == '=');
            assert(t[2] == ' ');
            lemma_op_round_trip(k, lex, line);
        },
        TokenType::Ne => {
            assert(t[0] == '~');
            assert(t[1] == '=');
            assert(t[2] == ' ');
            lemma_op_round_trip(k, lex, line);
        },
        TokenType::ShL => {
            assert(t[0] == '<');
            assert(t[1] == '<');
            assert(t[2] == ' ');
            lemma_op_round_trip(k, lex, line);
        },
        TokenType::ShR => {
            assert(t[0] == '>');
            assert(t[1] == '>');
            assert(t[2] == ' ');
            lemma_op_round_trip(k, lex, line);
        },
        TokenType::DbColon => {
            assert(t[0] == ':');
            assert(t[1] == ':');
            assert(t[2] == ' ');
            lemma_op_round_trip(k, lex, line);
        },
        TokenType::Concat => {
            assert(t[0] == '.');
            assert(t[1] == '.');
            assert(t[2] == '.');
            assert(t[3] == ' ');
            lemma_op_round_trip(k, lex, line);
        },
        TokenType::And => {
            reveal_strlit("and");
            reveal_strlit("break");
            reveal_strlit("do");
            reveal_strlit("else");
            reveal_strlit("elseif");
            reveal_strlit("end");
            reveal_strlit("false");
            reveal_strlit("for");
            reveal_strlit("function");
            reveal_strlit("goto");
            reveal_strlit("if");
            reveal_strlit("in");
            reveal_strlit("local");
            reveal_strlit("nil");
            reveal_strlit("not");
            reveal_strlit("or");
            reveal_strlit("repeat");
            reveal_strlit("return");
            reveal_strlit("then");
            reveal_strlit("true");
            reveal_strlit("until");
            reveal_strlit("while");
            assert(lex.len() == 3);
            assert(spec_is_alpha(lex[0]));
            assert(spec_is_alnum(lex[1]));
            assert(spec_is_alnum(lex[2]));
            lemma_name_like_round_trip(lex, line);
            assert(spec_keyword(lex) == TokenType::And);
        },
        TokenType::Break => {
            reveal_strlit("and");
            reveal_strlit("break");
            reveal_strlit("do");
            reveal_strlit("else");
            reveal_strlit("elseif");
            reveal_strlit("end");
            reveal_strlit("false");
            reveal_strlit("for");
            reveal_strlit("function");
            reveal_strlit("goto");
            reveal_strlit("if");
            reveal_strlit("in");
            reveal_strlit("local");
            reveal_strlit("nil");
            reveal_strlit("not");
            reveal_strlit("or");
            reveal_strlit("repeat");
            reveal_strlit("return");
            reveal_strlit("then");
            reveal_strlit("true");
            reveal_strlit("until");
            reveal_strlit("and");
            reveal_strlit("break");
            reveal_strlit("do");
            reveal_strlit("else");
            reveal_strlit("elseif");
            reveal_strlit("end");
            reveal_strlit("false");
            reveal_strlit("for");
            reveal_strlit("function");
            reveal_strlit("goto");
            reveal_strlit("if");
            reveal_strlit("in");
            reveal_strlit("local");
            reveal_strlit("nil");
            reveal_strlit("not");
            reveal_strlit("or");
            reveal_strlit("repeat");
            reveal_strlit("return");
            reveal_strlit("then");
            reveal_strlit("true");
            reveal_strlit("until");
            reveal_strlit("while");
            assert(lex.len() == 5);
            assert(spec_is_alpha(lex[0]));
            assert(spec_is_alnum(lex[1]));
            assert(spec_is_alnum(lex[2]));
            assert(spec_is_alnum(lex[3]));
            assert(spec_is_alnum(lex[4]));
            lemma_name_like_round_trip(lex, line);
            assert(spec_keyword(lex) == TokenType::Break);
        },
        TokenType::Do => {
            reveal_strlit("and");
            reveal_strlit("break");
            reveal_strlit("do");
            reveal_strlit("else");
            reveal_strlit("elseif");
            reveal_strlit("end");
            reveal_strlit("false");
            reveal_strlit("for");
            reveal_strlit("function");
            reveal_strlit("goto");
            reveal_strlit("if");
            reveal_strlit("in");
            reveal_strlit("local");
            reveal_strlit("nil");
            reveal_strlit("not");
            reveal_strlit("or");
            reveal_strlit("repeat");
            reveal_strlit("return");
            reveal_strlit("then");
            reveal_strlit("true");
            reveal_strlit("until");
            reveal_strlit("while");
            assert(lex.len() == 2);
            assert(spec_is_alpha(lex[0]));
            assert(spec_is_alnum(lex[1]));
            lemma_name_like_round_trip(lex, line);
            assert(spec_keyword(lex) == TokenType::Do);
        },
        TokenType::Else => {
            reveal_strlit("and");
            reveal_strlit("break");
            reveal_strlit("do");
            reveal_strlit("else");
            reveal_strlit("elseif");
            reveal_strlit("end");
            reveal_strlit("false");
            reveal_strlit("for");
            reveal_strlit("function");
            reveal_strlit("goto");
            reveal_strlit("if");
            reveal_strlit("in");
            reveal_strlit("local");
            reveal_strlit("nil");
            reveal_strlit("not");
            reveal_strlit("or");
            reveal_strlit("repeat");
            reveal_strlit("return");
            reveal_strlit("then");
            reveal_strlit("true");
            reveal_strlit("until");
            reveal_strlit("while");
            assert(lex.len() == 4);
            assert(spec_is_alpha(lex[0]));
            assert(spec_is_alnum(lex[1]));
            assert(spec_is_alnum(lex[2]));
            assert(spec_is_alnum(lex[3]));
            lemma_name_like_round_trip(lex, line);
            assert(spec_keyword(lex) == TokenType::Else);
        },
        TokenType::Elseif => {
            reveal_strlit("and");
            reveal_strlit("break");
            reveal_strlit("do");
            reveal_strlit("else");
            reveal_strlit("elseif");
            reveal_strlit("end");
            reveal_strlit("false");
            reveal_strlit("for");
            reveal_strlit("function");
            reveal_strlit("goto");
            reveal_strlit("if");
            reveal_strlit("in");
            reveal_strlit("local");
            reveal_strlit("nil");
            reveal_strlit("not");
            reveal_strlit("or");
            reveal_strlit("repeat");
            reveal_strlit("return");
            reveal_strlit("then");
            reveal_strlit("true");
            reveal_strlit("until");
            reveal_strlit("while");
            assert(lex.len() == 6);
            assert(spec_is_alpha(lex[0]));
            assert(spec_is_alnum(lex[1]));
            assert(spec_is_alnum(lex[2]));
            assert(spec_is_alnum(lex[3]));
            assert(spec_is_alnum(lex[4]));
            assert(spec_is_alnum(lex[5]));
            lemma_name_like_round_trip(lex, line);
            assert(spec_keyword(lex) == TokenType::Elseif);
        },
        TokenType::End => {
            reveal_strlit("and");
            reveal_strlit("break");
            reveal_strlit("do");
            reveal_strlit("else");
            reveal_strlit("elseif");
            reveal_strlit("end");
            reveal_strlit("false");
            reveal_strlit("for");
            reveal_strlit("function");
            reveal_strlit("goto");
            reveal_strlit("if");
            reveal_strlit("in");
            reveal_strlit("local");
            reveal_strlit("nil");
            reveal_strlit("not");
            reveal_strlit("or");
            reveal_strlit("repeat");
            reveal_strlit("return");
            reveal_strlit("then");
            reveal_strlit("true");
            reveal_strlit("until");
            reveal_strlit("while");
            assert(lex.len() == 3);
            assert(spec_is_alpha(lex[0]));
            assert(spec_is_alnum(lex[1]));
            assert(spec_is_alnum(lex[2]));
            lemma_name_like_round_trip(lex, line);
            assert(spec_keyword(lex) == TokenType::End);
        },
        TokenType::False => {
            reveal_strlit("and");
            reveal_strlit("break");
            reveal_strlit("do");
            reveal_strlit("else");
            reveal_strlit("elseif");
            reveal_strlit("end");
            reveal_strlit("false");
            reveal_strlit("for");
            reveal_strlit("function");
            reveal_strlit("goto");
            reveal_strlit("if");
            reveal_strlit("in");
            reveal_strlit("local");
            reveal_strlit("nil");
            reveal_strlit("not");
            reveal_strlit("or");
            reveal_strlit("repeat");
            reveal_strlit("return");
            reveal_strlit("then");
            reveal_strlit("true");
            reveal_strlit("until");
            reveal_strlit("and");
            reveal_strlit("break");
            reveal_strlit("do");
            reveal_strlit("else");
            reveal_strlit("elseif");
            reveal_strlit("end");
            reveal_strlit("false");
            reveal_strlit("for");
            reveal_strlit("function");
            reveal_strlit("goto");
            reveal_strlit("if");
            reveal_strlit("in");
            reveal_strlit("local");
            reveal_strlit("nil");
            reveal_strlit("not");
            reveal_strlit("or");
            reveal_strlit("repeat");
            reveal_strlit("return");
            reveal_strlit("then");
            reveal_strlit("true");
            reveal_strlit("until");
            reveal_strlit("while");
            assert(lex.len() == 5);
            assert(spec_is_alpha(lex[0]));
            assert(spec_is_alnum(lex[1]));
            assert(spec_is_alnum(lex[2]));
            assert(spec_is_alnum(lex[3]));
            assert(spec_is_alnum(lex[4]));
            lemma_name_like_round_trip(lex, line);
            assert(spec_keyword(lex) == TokenType::False);
        },
        TokenType::For => {
            reveal_strlit("and");
            reveal_strlit("break");
            reveal_strlit("do");
            reveal_strlit("else");
            reveal_strlit("elseif");
            reveal_strlit("end");
            reveal_strlit("false");
            reveal_strlit("for");
            reveal_strlit("function");
            reveal_strlit("goto");
            reveal_strlit("if");
            reveal_strlit("in");
            reveal_strlit("local");
            reveal_strlit("nil");
            reveal_strlit("not");
            reveal_strlit("or");
            reveal_strlit("repeat");
            reveal_strlit("return");
            reveal_strlit("then");
            reveal_strlit("true");
            reveal_strlit("until");
            reveal_strlit("while");
            assert(lex.len() == 3);
            assert(spec_is_alpha(lex[0]));
            assert(spec_is_alnum(lex[1]));
            assert(spec_is_alnum(lex[2]));
            lemma_name_like_round_trip(lex, line);
            assert(spec_keyword(lex) == TokenType::For);
        },
        TokenType::Function => {
            reveal_strlit("and");
            reveal_strlit("break");
            reveal_strlit("do");
            reveal_strlit("else");
            reveal_strlit("elseif");
            reveal_strlit("end");
            reveal_strlit("false");
            reveal_strlit("for");
            reveal_strlit("function");
            reveal_strlit("goto");
            reveal_strlit("if");
            reveal_strlit("in");
            reveal_strlit("local");
            reveal_strlit("nil");
            reveal_strlit("not");
            reveal_strlit("or");
            reveal_strlit("repeat");
            reveal_strlit("return");
            reveal_strlit("then");
            reveal_strlit("true");
            reveal_strlit("until");
            reveal_strlit("while");
            assert(lex.len() == 8);
            assert(spec_is_alpha(lex[0]));
            assert(spec_is_alnum(lex[1]));
            assert(spec_is_alnum(lex[2]));
            assert(spec_is_alnum(lex[3]));
            assert(spec_is_alnum(lex[4]));
            assert(spec_is_alnum(lex[5]));
            assert(spec_is_alnum(lex[6]));
            assert(spec_is_alnum(lex[7]));
            lemma_name_like_round_trip(lex, line);
            assert(spec_keyword(lex) == TokenType::Function);
        },
        TokenType::Goto => {
            reveal_strlit("and");
            reveal_strlit("break");
            reveal_strlit("do");
            reveal_strlit("else");
            reveal_strlit("elseif");
            reveal_strlit("end");
            reveal_strlit("false");
            reveal_strlit("for");
            reveal_strlit("function");
            reveal_strlit("goto");
            reveal_strlit("if");
            reveal_strlit("in");
            reveal_strlit("local");
            reveal_strlit("nil");
            reveal_strlit("not");
            reveal_strlit("or");
            reveal_strlit("repeat");
            reveal_strlit("return");
            reveal_strlit("then");
            reveal_strlit("true");
            reveal_strlit("until");
            reveal_strlit("while");
            assert(lex.len() == 4);
            assert(spec_is_alpha(lex[0]));
            assert(spec_is_alnum(lex[1]));
            assert(spec_is_alnum(lex[2]));
            assert(spec_is_alnum(lex[3]));
            lemma_name_like_round_trip(lex, line);
            assert(spec_keyword(lex) == TokenType::Goto);
        },
        TokenType::If => {
            reveal_strlit("and");
            reveal_strlit("break");
            reveal_strlit("do");
            reveal_strlit("else");
            reveal_strlit("elseif");
            reveal_strlit("end");
            reveal_strlit("false");
            reveal_strlit("for");
            reveal_strlit("function");
            reveal_strlit("goto");
            reveal_strlit("if");
            reveal_strlit("in");
            reveal_strlit("local");
            reveal_strlit("nil");
            reveal_strlit("not");
            reveal_strlit("or");
            reveal_strlit("repeat");
            reveal_strlit("return");
            reveal_strlit("then");
            reveal_strlit("true");
            reveal_strlit("until");
            reveal_strlit("while");
            assert(lex.len() == 2);
            assert(spec_is_alpha(lex[0]));
            assert(spec_is_alnum(lex[1]));
            lemma_name_like_round_trip(lex, line);
            assert(spec_keyword(lex) == TokenType::If);
        },
        TokenType::In => {
            reveal_strlit("and");
            reveal_strlit("break");
            reveal_strlit("do");
            reveal_strlit("else");
            reveal_strlit("elseif");
            reveal_strlit("end");
            reveal_strlit("false");
            reveal_strlit("for");
            reveal_strlit("function");
            reveal_strlit("goto");
            reveal_strlit("if");
            reveal_strlit("in");
            reveal_strlit("local");
            reveal_strlit("nil");
            reveal_strlit("not");
            reveal_strlit("or");
            reveal_strlit("repeat");
            reveal_strlit("return");
            reveal_strlit("then");
            reveal_strlit("true");
            reveal_strlit("until");
            reveal_strlit("while");
            assert(lex.len() == 2);
            assert(spec_is_alpha(lex[0]));
            assert(spec_is_alnum(lex[1]));
            lemma_name_like_round_trip(lex, line);
            assert(spec_keyword(lex) == TokenType::In);
        },
        TokenType::Local => {
            reveal_strlit("and");
            reveal_strlit("break");
            reveal_strlit("do");
            reveal_strlit("else");
            reveal_strlit("elseif");
            reveal_strlit("end");
            reveal_strlit("false");
            reveal_strlit("for");
            reveal_strlit("function");
            reveal_strlit("goto");
            reveal_strlit("if");
            reveal_strlit("in");
            reveal_strlit("local");
            reveal_strlit("nil");
            reveal_strlit("not");
            reveal_strlit("or");
            reveal_strlit("repeat");
            reveal_strlit("return");
            reveal_strlit("then");
            reveal_strlit("true");
            reveal_strlit("until");
            reveal_strlit("and");
            reveal_strlit("break");
            reveal_strlit("do");
            reveal_strlit("else");
            reveal_strlit("elseif");
            reveal_strlit("end");
            reveal_strlit("false");
            reveal_strlit("for");
            reveal_strlit("function");
            reveal_strlit("goto");
            reveal_strlit("if");
            reveal_strlit("in");
            reveal_strlit("local");
            reveal_strlit("nil");
            reveal_strlit("not");
            reveal_strlit("or");
            reveal_strlit("repeat");
            reveal_strlit("return");
            reveal_strlit("then");
            reveal_strlit("true");
            reveal_strlit("until");
            reveal_strlit("while");
            assert(lex.len() == 5);
            assert(spec_is_alpha(lex[0]));
            assert(spec_is_alnum(lex[1]));
            assert(spec_is_alnum(lex[2]));
            assert(spec_is_alnum(lex[3]));
            assert(spec_is_alnum(lex[4]));
            lemma_name_like_round_trip(lex, line);
            assert(spec_keyword(lex) == TokenType::Local);
        },
        TokenType::Nil => {
            reveal_strlit("and");
            reveal_strlit("break");
            reveal_strlit("do");
            reveal_strlit("else");
            reveal_strlit("elseif");
            reveal_strlit("end");
            reveal_strlit("false");
            reveal_strlit("for");
            reveal_strlit("function");
            reveal_strlit("goto");
            reveal_strlit("if");
            reveal_strlit("in");
            reveal_strlit("local");
            reveal_strlit("nil");
            reveal_strlit("not");
            reveal_strlit("or");
            reveal_strlit("repeat");
            reveal_strlit("return");
            reveal_strlit("then");
            reveal_strlit("true");
            reveal_strlit("until");
            reveal_strlit("while");
            assert(lex.len() == 3);
            assert(spec_is_alpha(lex[0]));
            assert(spec_is_alnum(lex[1]));
            assert(spec_is_alnum(lex[2]));
            lemma_name_like_round_trip(lex, line);
            assert(spec_keyword(lex) == TokenType::Nil);
        },
        TokenType::Not => {
            reveal_strlit("and");
            reveal_strlit("break");
            reveal_strlit("do");
            reveal_strlit("else");
            reveal_strlit("elseif");
            reveal_strlit("end");
            reveal_strlit("false");
            reveal_strlit("for");
            reveal_strlit("function");
            reveal_strlit("goto");
            reveal_strlit("if");
            reveal_strlit("in");
            reveal_strlit("local");
            reveal_strlit("nil");
            reveal_strlit("not");
            reveal_strlit("or");
            reveal_strlit("repeat");
            reveal_strlit("return");
            reveal_strlit("then");
            reveal_strlit("true");
            reveal_strlit("until");
            reveal_strlit("while");
            assert(lex.len() == 3);
            assert(spec_is_alpha(lex[0]));
            assert(spec_is_alnum(lex[1]));
            assert(spec_is_alnum(lex[2]));
            lemma_name_like_round_trip(lex, line);
            assert(spec_keyword(lex) == TokenType::Not);
        },
        TokenType::Or => {
            reveal_strlit("and");
            reveal_strlit("break");
            reveal_strlit("do");
            reveal_strlit("else");
            reveal_strlit("elseif");
            reveal_strlit("end");
            reveal_strlit("false");
            reveal_strlit("for");
            reveal_strlit("function");
            reveal_strlit("goto");
            reveal_strlit("if");
            reveal_strlit("in");
            reveal_strlit("local");
            reveal_strlit("nil");
            reveal_strlit("not");
            reveal_strlit("or");
            reveal_strlit("repeat");
            reveal_strlit("return");
            reveal_strlit("then");
            reveal_strlit("true");
            reveal_strlit("until");
            reveal_strlit("while");
            assert(lex.len() == 2);
            assert(spec_is_alpha(lex[0]));
            assert(spec_is_alnum(lex[1]));
            lemma_name_like_round_trip(lex, line);
            assert(spec_keyword(lex) == TokenType::Or);
        },
        TokenType::Repeat => {
            reveal_strlit("and");
            reveal_strlit("break");
            reveal_strlit("do");
            reveal_strlit("else");
            reveal_strlit("elseif");
            reveal_strlit("end");
            reveal_strlit("false");
            reveal_strlit("for");
            reveal_strlit("function");
            reveal_strlit("goto");
            reveal_strlit("if");
            reveal_strlit("in");
            reveal_strlit("local");
            reveal_strlit("nil");
            reveal_strlit("not");
            reveal_strlit("or");
            reveal_strlit("repeat");
            reveal_strlit("return");
            reveal_strlit("then");
            reveal_strlit("true");
            reveal_strlit("until");
            reveal_strlit("while");
            assert(lex.len() == 6);
            assert(spec_is_alpha(lex[0]));
            assert(spec_is_alnum(lex[1]));
            assert(spec_is_alnum(lex[2]));
            assert(spec_is_alnum(lex[3]));
            assert(spec_is_alnum(lex[4]));
            assert(spec_is_alnum(lex[5]));
            lemma_name_like_round_trip(lex, line);
            assert(spec_keyword(lex) == TokenType::Repeat);
        },
        TokenType::Return => {
            reveal_strlit("and");
            reveal_strlit("break");
            reveal_strlit("do");
            reveal_strlit("else");
            reveal_strlit("elseif");
            reveal_strlit("end");
            reveal_strlit("false");
            reveal_strlit("for");
            reveal_strlit("function");
            reveal_strlit("goto");
            reveal_strlit("if");
            reveal_strlit("in");
            reveal_strlit("local");
            reveal_strlit("nil");
            reveal_strlit("not");
            reveal_strlit("or");
            reveal_strlit("repeat");
            reveal_strlit("return");
            reveal_strlit("then");
            reveal_strlit("true");
            reveal_strlit("until");
            reveal_strlit("while");
            assert(lex.len() == 6);
            assert(spec_is_alpha(lex[0]));
            assert(spec_is_alnum(lex[1]));
            assert(spec_is_alnum(lex[2]));
            assert(spec_is_alnum(lex[3]));
            assert(spec_is_alnum(lex[4]));
            assert(spec_is_alnum(lex[5]));
            lemma_name_like_round_trip(lex, line);
            assert(spec_keyword(lex) == TokenType::Return);
        },
        TokenType::Then => {
            reveal_strlit("and");
            reveal_strlit("break");
            reveal_strlit("do");
            reveal_strlit("else");
            reveal_strlit("elseif");
            reveal_strlit("end");
            reveal_strlit("false");
            reveal_strlit("for");
            reveal_strlit("function");
            reveal_strlit("goto");
            reveal_strlit("if");
            reveal_strlit("in");
            reveal_strlit("local");
            reveal_strlit("nil");
            reveal_strlit("not");
            reveal_strlit("or");
            reveal_strlit("repeat");
            reveal_strlit("return");
            reveal_strlit("then");
            reveal_strlit("true");
            reveal_strlit("until");
            reveal_strlit("while");
            assert(lex.len() == 4);
            assert(spec_is_alpha(lex[0]));
            assert(spec_is_alnum(lex[1]));
            assert(spec_is_alnum(lex[2]));
            assert(spec_is_alnum(lex[3]));
            lemma_name_like_round_trip(lex, line);
            assert(spec_keyword(lex) == TokenType::Then);
        },
        TokenType::True => {
            reveal_strlit("and");
            reveal_strlit("break");
            reveal_strlit("do");
            reveal_strlit("else");
            reveal_strlit("elseif");
            reveal_strlit("end");
            reveal_strlit("false");
            reveal_strlit("for");
            reveal_strlit("function");
            reveal_strlit("goto");
            reveal_strlit("if");
            reveal_strlit("in");
            reveal_strlit("local");
            reveal_strlit("nil");
            reveal_strlit("not");
            reveal_strlit("or");
            reveal_strlit("repeat");
            reveal_strlit("return");
            reveal_strlit("then");
            reveal_strlit("true");
            reveal_strlit("until");
            reveal_strlit("while");
            assert(lex.len() == 4);
            assert(spec_is_alpha(lex[0]));
            assert(spec_is_alnum(lex[1]));
            assert(spec_is_alnum(lex[2]));
            assert(spec_is_alnum(lex[3]));
            lemma_name_like_round_trip(lex, line);
            assert(spec_keyword(lex) == TokenType::True);
        },
        TokenType::Until => {
            reveal_strlit("and");
            reveal_strlit("break");
            reveal_strlit("do");
            reveal_strlit("else");
            reveal_strlit("elseif");
            reveal_strlit("end");
            reveal_strlit("false");
            reveal_strlit("for");
            reveal_strlit("function");
            reveal_strlit("goto");
            reveal_strlit("if");
            reveal_strlit("in");
            reveal_strlit("local");
            reveal_strlit("nil");
            reveal_strlit("not");
            reveal_strlit("or");
            reveal_strlit("repeat");
            reveal_strlit("return");
            reveal_strlit("then");
            reveal_strlit("true");
            reveal_strlit("until");
            reveal_strlit("and");
            reveal_strlit("break");
            reveal_strlit("do");
            reveal_strlit("else");
            reveal_strlit("elseif");
            reveal_strlit("end");
            reveal_strlit("false");
            reveal_strlit("for");
            reveal_strlit("function");
            reveal_strlit("goto");
            reveal_strlit("if");
            reveal_strlit("in");
            reveal_strlit("local");
            reveal_strlit("nil");
            reveal_strlit("not");
            reveal_strlit("or");
            reveal_strlit("repeat");
            reveal_strlit("return");
            reveal_strlit("then");
            reveal_strlit("true");
            reveal_strlit("until");
            reveal_strlit("while");
            assert(lex.len() == 5);
            assert(spec_is_alpha(lex[0]));
            assert(spec_is_alnum(lex[1]));
            assert(spec_is_alnum(lex[2]));
            assert(spec_is_alnum(lex[3]));
            assert(spec_is_alnum(lex[4]));
            lemma_name_like_round_trip(lex, line);
            assert(spec_keyword(lex) == TokenType::Until);
        },
        TokenType::While => {
            reveal_strlit("and");
            reveal_strlit("break");
            reveal_strlit("do");
            reveal_strlit("else");
            reveal_strlit("elseif");
            reveal_strlit("end");
            reveal_strlit("false");
            reveal_strlit("for");
            reveal_strlit("function");
            reveal_strlit("goto");
            reveal_strlit("if");
            reveal_strlit("in");
            reveal_strlit("local");
            reveal_strlit("nil");
            reveal_strlit("not");
            reveal_strlit("or");
            reveal_strlit("repeat");
            reveal_strlit("return");
            reveal_strlit("then");
            reveal_strlit("true");
            reveal_strlit("until");
            reveal_strlit("while");
            assert(lex.len() == 5);
            assert(spec_is_alpha(lex[0]));
            assert(spec_is_alnum(lex[1]));
            assert(spec_is_alnum(lex[2]));
            assert(spec_is_alnum(lex[3]));
            assert(spec_is_alnum(lex[4]));
            lemma_name_like_round_trip(lex, line);
            assert(spec_keyword(lex) == TokenType::While);
        },
        TokenType::Name => {
            lemma_name_like_round_trip(lex, line);
        },
        TokenType::Int => {
            assert(t[0] == lex[0]);
            assert(spec_is_digit(t[0]));
            assert forall|j: int| 1 <= j < m implies spec_is_digit(t[j]) by {
                assert(t[j] == lex[j]);
            }
            assert(!spec_is_digit(' '));
            lemma_digits_end_run(t, 1, m as nat);
            assert(t[m as int] != '.');
            lemma_op_round_trip(k, lex, line);
        },
        TokenType::Float => {
            let d = choose|d: int|
                {
                    &&& 1 <= d <= lex.len() - 2
                    &&& lex[d] == '.'
                    &&& (forall|i: int| 0 <= i < d ==> spec_is_digit(#[trigger] lex[i]))
                    &&& (forall|i: int| d < i < lex.len() ==> spec_is_digit(#[trigger] lex[i]))
                };
            assert(t[0] == lex[0]);
            assert(spec_is_digit(t[0]));
            assert forall|j: int| 1 <= j < d implies spec_is_digit(t[j]) by {
                assert(t[j] == lex[j]);
            }
            assert(t[d] == lex[d]);
            assert(!spec_is_digit('.'));
            lemma_digits_end_run(t, 1, d as nat);
            assert(t[d + 1] == lex[d + 1]);
            assert(spec_is_digit(t[d + 1]));
            assert forall|j: int| d + 1 <= j < m implies spec_is_digit(t[j]) by {
                assert(t[j] == lex[j]);
            }
            assert(!spec_is_digit(' '));
            lemma_digits_end_run(t, (d + 1) as nat, m as nat);
            lemma_op_round_trip(k, lex, line);
        },
        TokenType::StringLit => {
            let q = lex[0];
            assert(t[0] == q);
            assert(q != '\n');
            assert forall|j: int| 1 <= j < m - 1 implies t[j] != q && t[j] != '\n' by {
                assert(t[j] == lex[j]);
            }
            assert(t[m - 1] == lex[m - 1] == q);
            lemma_find_str_end_run(t, 1, (m - 1) as nat, q);
            lemma_op_round_trip(k, lex, line);
        },
        _ => {
            assert(false);
        },
    }
}


// ------------------------------------------------------------------
// Every token the scanner emits carries a well-formed lexeme
// ------------------------------------------------------------------

proof fn lemma_find_str_end_chars(s: Seq<char>, i: nat, quote: char)
    requires
        i <= s.len(),
    ensures
        forall|k: int| i <= k < find_str_end(s, i, quote) ==> s[k] != quote && s[k] != '\n',
        find_str_end(s, i, quote) < s.len() ==> s[find_str_end(s, i, quote) as int] == quote || s[
            find_str_end(s, i, quote) as int
        ] == '\n',
    decreases s.len() - i,
{
    if i < s.len() && s[i as int] != quote && s[i as int] != '\n' {
        lemma_find_str_end_chars(s, i + 1, quote);
    }
}

proof fn lemma_digits_end_chars(s: Seq<char>, i: nat)
    requires
        i <= s.len(),
    ensures
        forall|k: int| i <= k < digits_end(s, i) ==> spec_is_digit(s[k]),
        digits_end(s, i) < s.len() ==> !spec_is_digit(s[digits_end(s, i) as int]),
    decreases s.len() - i,
{
    if i < s.len() && spec_is_digit(s[i as int]) {
        lemma_digits_end_chars(s, i + 1);
    }
}

proof fn lemma_name_end_chars(s: Seq<char>, i: nat)
    requires
        i <= s.len(),
    ensures
        forall|k: int| i <= k < name_end(s, i) ==> spec_is_alnum(s[k]),
        name_end(s, i) < s.len() ==> !spec_is_alnum(s[name_end(s, i) as int]),
    decreases s.len() - i,
{
    if i < s.len() && spec_is_alnum(s[i as int]) {
        lemma_name_end_chars(s, i + 1);
    }
}

/// What holds of every successful scan: the token stream ends in the
/// end-of-input marker, and every token before it is a proper token
/// (never `Eof` or a comment) whose lexeme is well formed for its
/// kind. Together with the round-trip law, every such token re-lexes
/// to itself.
#[verifier::rlimit(100)]
#[verifier::spinoff_prover]
pub proof fn lemma_scan_tokens_wf(s: Seq<char>, line: nat)
    ensures
        (match scan_rest(s, line) {
            Option::Some(o) => {
                &&& o.toks.len() >= 1
                &&& o.toks.last().kind == TokenType::Eof
                &&& forall|i: int|
                    0 <= i < o.toks.len() - 1 ==> wf_lexeme(
                        #[trigger] o.toks[i].kind,
                        o.toks[i].lexeme,
                    ) && o.toks[i].kind != TokenType::Eof && o.toks[i].kind != TokenType::Comment
            },
            Option::None => true,
        }),
    decreases s.len(),
{
    if s.len() == 0 {
    } else if scan_rest(s, line) is Some {
        let c = s[0];
        lemma_consumed_at_bounds(s);
        let n = consumed_at(s);
        if c == ' ' || c == '\r' || c == '\t' {
            lemma_scan_tokens_wf(s.skip(1), line);
        } else if c == '\n' {
            lemma_scan_tokens_wf(s.skip(1), line + 1);
        } else if c == '-' && s.len() >= 2 && s[1] == '-' {
            lemma_scan_tokens_wf(s.skip(n as int), line);
        } else {
            lemma_scan_tokens_wf(s.skip(n as int), line);
            let rest = scan_rest(s.skip(n as int), line);
            let o = scan_rest(s, line)->Some_0;
            let ro = rest->Some_0;
            let t0 = o.toks[0];
            assert(o.toks == seq![t0] + ro.toks);
            assert(o.toks.last() == ro.toks.last());
            assert(t0.lexeme == s.take(n as int));
            assert forall|k: int| 0 <= k < n implies s.take(n as int)[k] == s[k] by {}
            if c == '\'' || c == '"' {
                let j = find_str_end(s, 1, c);
                lemma_find_str_end_bounds(s, 1, c);
                lemma_find_str_end_chars(s, 1, c);
                assert(s[j as int] == c);
                assert(t0.kind == TokenType::StringLit);
                assert(t0.lexeme.len() == j + 1);
                assert(t0.lexeme.last() == s[j as int]);
                assert(t0.lexeme[0] == c);
                assert forall|i: int| 1 <= i < t0.lexeme.len() - 1 implies #[trigger] t0.lexeme[i]
                    != t0.lexeme[0] && t0.lexeme[i] != '\n' by {
                    assert(t0.lexeme[i] == s[i]);
                }
                assert(t0.lexeme.len() >= 2);
                assert(t0.lexeme[0] == '\'' || t0.lexeme[0] == '"');
                assert(t0.lexeme.last() == t0.lexeme[0]);
                assert(wf_lexeme(t0.kind, t0.lexeme));
            } else if spec_is_digit(c) {
                let k = digits_end(s, 1);
                lemma_digits_end_chars(s, 1);
                if k < s.len() && s[k as int] == '.' && k + 1 < s.len() && spec_is_digit(
                    s[k + 1 as int],
                ) {
                    let k2 = digits_end(s, k + 1);
                    lemma_digits_end_chars(s, k + 1);
                    assert(k2 >= k + 2) by {
                        assert(digits_end(s, k + 1) == digits_end(s, k + 2));
                        lemma_digits_end_bounds(s, k + 2);
                    }
                    assert(t0.kind == TokenType::Float);
                    assert(t0.lexeme.len() == k2);
                    assert({
                        &&& 1 <= k <= t0.lexeme.len() - 2
                        &&& t0.lexeme[k as int] == '.'
                        &&& (forall|i: int|
                            0 <= i < k ==> spec_is_digit(#[trigger] t0.lexeme[i]))
                        &&& (forall|i: int|
                            k < i < t0.lexeme.len() ==> spec_is_digit(#[trigger] t0.lexeme[i]))
                    });
                    assert(wf_lexeme(t0.kind, t0.lexeme));
                } else {
                    assert(t0.kind == TokenType::Int);
                    assert(wf_lexeme(t0.kind, t0.lexeme));
                }
            } else if spec_is_alpha(c) {
                let k = name_end(s, 1);
                lemma_name_end_chars(s, 1);
                assert(t0.kind == spec_keyword(t0.lexeme));
                assert(t0.lexeme.len() >= 1 && spec_is_alpha(t0.lexeme[0]) && (forall|i: int|
                    1 <= i < t0.lexeme.len() ==> spec_is_alnum(#[trigger] t0.lexeme[i])));
                assert(wf_lexeme(t0.kind, t0.lexeme));
            } else {
                assert(n <= 3);
                assert(wf_lexeme(t0.kind, t0.lexeme)) by {
                    assert(t0.lexeme.len() == n);
                    if n == 1 {
                        assert(t0.lexeme =~= seq![s[0]]);
                    } else if n == 2 {
                        assert(t0.lexeme =~= seq![s[0], s[1]]);
                    } else {
                        assert(t0.lexeme =~= seq![s[0], s[1], s[2]]);
                    }
                }
            }
            assert forall|i: int| 0 <= i < o.toks.len() - 1 implies wf_lexeme(
                #[trigger] o.toks[i].kind,
                o.toks[i].lexeme,
            ) && o.toks[i].kind != TokenType::Eof && o.toks[i].kind != TokenType::Comment by {
                if i > 0 {
                    assert(o.toks[i] == ro.toks[i - 1]);
                }
            }
        }
    }
}

} // verus!
