//! Handwritten lexer. Small token set, shell-quirky rules: `-2` is a number,
//! `-f` is a short flag, `--name` / `--name=value` are long flags, barewords
//! are anything else unquoted. A single `&` lexes as a reserved token the
//! parser rejects with "not supported yet".

use crate::ask;
use crate::ask::{Query, QueryView, Replies, Reply, ReplySeq, ReplyView, Stop, StopView};
use crate::error::{ErrorKind, ErrorView, ShellError, Span};
use crate::float::Float;
use crate::text;
use crate::value::MAX_SAFE_INT;
use vstd::prelude::*;

verus! {

#[derive(Debug, PartialEq, Eq)]
pub enum TokenKind {
    Bareword(String),
    Int(i64),
    Float(Float),
    /// `'raw string'`
    StrRaw(String),
    /// `"text $var text"` — parts to interpolate at bind time.
    StrInterp(Vec<InterpPart>),
    /// `$name`
    Var(String),
    /// `--name` (long) or `-n` (short). `has_eq` means `--name=value`: the
    /// value expression is the immediately following token.
    Flag { name: String, long: bool, has_eq: bool },
    Pipe,
    Semi,
    /// Operators and grouping. These only mean anything inside a closure
    /// body; at pipeline level the parser rejects them with a spanned
    /// diagnostic.
    Op(Op),
    /// Syntax still fenced off for later: `&`.
    Reserved(String),
}

/// Operator and grouping tokens.
#[derive(Clone, Copy, Debug, PartialEq, Eq, Structural)]
pub enum Op {
    LParen,
    RParen,
    LBrace,
    RBrace,
    Plus,
    Minus,
    Star,
    Slash,
    Percent,
    EqEq,
    Ne,
    Lt,
    Le,
    Gt,
    Ge,
    AndAnd,
    OrOr,
    Bang,
    /// A lone `=`, which is never valid on its own — kept as a token so the
    /// parser can say "use `==`" instead of a generic failure.
    Assign,
}

/// How an operator is written.
pub open spec fn op_text(op: Op) -> Seq<char> {
    match op {
        Op::LParen => "("@,
        Op::RParen => ")"@,
        Op::LBrace => "{"@,
        Op::RBrace => "}"@,
        Op::Plus => "+"@,
        Op::Minus => "-"@,
        Op::Star => "*"@,
        Op::Slash => "/"@,
        Op::Percent => "%"@,
        Op::EqEq => "=="@,
        Op::Ne => "!="@,
        Op::Lt => "<"@,
        Op::Le => "<="@,
        Op::Gt => ">"@,
        Op::Ge => ">="@,
        Op::AndAnd => "&&"@,
        Op::OrOr => "||"@,
        Op::Bang => "!"@,
        Op::Assign => "="@,
    }
}

impl Op {
    pub fn as_str(self) -> (r: &'static str)
        ensures
            r@ == op_text(self),
    {
        match self {
            Op::LParen => "(",
            Op::RParen => ")",
            Op::LBrace => "{",
            Op::RBrace => "}",
            Op::Plus => "+",
            Op::Minus => "-",
            Op::Star => "*",
            Op::Slash => "/",
            Op::Percent => "%",
            Op::EqEq => "==",
            Op::Ne => "!=",
            Op::Lt => "<",
            Op::Le => "<=",
            Op::Gt => ">",
            Op::Ge => ">=",
            Op::AndAnd => "&&",
            Op::OrOr => "||",
            Op::Bang => "!",
            Op::Assign => "=",
        }
    }
}

#[derive(Debug, PartialEq, Eq)]
pub enum InterpPart {
    Lit(String),
    Var(String),
}

#[derive(Debug, PartialEq, Eq)]
pub struct Token {
    pub kind: TokenKind,
    pub span: Span,
}

pub enum InterpPartView {
    Lit(Seq<char>),
    Var(Seq<char>),
}

pub enum TokenKindView {
    Bareword(Seq<char>),
    Int(i64),
    Float(Float),
    StrRaw(Seq<char>),
    StrInterp(Seq<InterpPartView>),
    Var(Seq<char>),
    Flag { name: Seq<char>, long: bool, has_eq: bool },
    Pipe,
    Semi,
    Op(Op),
    Reserved(Seq<char>),
}

pub struct TokenView {
    pub kind: TokenKindView,
    pub span: Span,
}

impl View for InterpPart {
    type V = InterpPartView;

    open spec fn view(&self) -> InterpPartView {
        match *self {
            InterpPart::Lit(s) => InterpPartView::Lit(s@),
            InterpPart::Var(s) => InterpPartView::Var(s@),
        }
    }
}

pub open spec fn parts_view(parts: Seq<InterpPart>) -> Seq<InterpPartView> {
    parts.map_values(|p: InterpPart| p@)
}

impl View for TokenKind {
    type V = TokenKindView;

    open spec fn view(&self) -> TokenKindView {
        match *self {
            TokenKind::Bareword(s) => TokenKindView::Bareword(s@),
            TokenKind::Int(n) => TokenKindView::Int(n),
            TokenKind::Float(f) => TokenKindView::Float(f),
            TokenKind::StrRaw(s) => TokenKindView::StrRaw(s@),
            TokenKind::StrInterp(parts) => TokenKindView::StrInterp(parts_view(parts@)),
            TokenKind::Var(s) => TokenKindView::Var(s@),
            TokenKind::Flag { name, long, has_eq } => TokenKindView::Flag {
                name: name@,
                long,
                has_eq,
            },
            TokenKind::Pipe => TokenKindView::Pipe,
            TokenKind::Semi => TokenKindView::Semi,
            TokenKind::Op(op) => TokenKindView::Op(op),
            TokenKind::Reserved(s) => TokenKindView::Reserved(s@),
        }
    }
}

impl View for Token {
    type V = TokenView;

    open spec fn view(&self) -> TokenView {
        TokenView { kind: self.kind@, span: self.span }
    }
}

pub open spec fn tokens_view(tokens: Seq<Token>) -> Seq<TokenView> {
    tokens.map_values(|t: Token| t@)
}

/// Characters that may stand in a bareword.
pub open spec fn bareword_char(c: char) -> bool {
    !text::whitespace(c) && c != '|' && c != ';' && c != '#' && c != '\'' && c != '"' && c != '$'
        && c != '(' && c != ')' && c != '{' && c != '}' && c != '>' && c != '<' && c != '&' && c
        != '='
}

/// Characters that may stand in a flag's name.
pub open spec fn flag_char(c: char) -> bool {
    text::alphanumeric(c) || c == '_' || c == '-'
}

/// Characters that may stand in a variable's name.
pub open spec fn var_char(c: char) -> bool {
    text::alphanumeric(c) || c == '_'
}

pub fn is_bareword_char(c: char) -> (r: bool)
    ensures
        r == bareword_char(c),
{
    !text::is_whitespace(c) && c != '|' && c != ';' && c != '#' && c != '\'' && c != '"' && c != '$'
        && c != '(' && c != ')' && c != '{' && c != '}' && c != '>' && c != '<' && c != '&' && c
        != '='
}

/// Flag names allow '-' (`--starts-with`); variable names do not, so `$a-b`
/// reads as `$a` followed by bareword `-b`, matching interpolation.
pub fn is_flag_char(c: char) -> (r: bool)
    ensures
        r == flag_char(c),
{
    text::is_alphanumeric(c) || c == '_' || c == '-'
}

pub fn is_var_char(c: char) -> (r: bool)
    ensures
        r == var_char(c),
{
    text::is_alphanumeric(c) || c == '_'
}

/// Can `$name` refer to a variable of this name?
pub open spec fn valid_var_name(name: Seq<char>) -> bool {
    name.len() > 0 && forall|i: int| 0 <= i < name.len() ==> var_char(#[trigger] name[i])
}

/// The rule for a variable's name is the lexer's: what `$name` can spell.
pub fn is_valid_var_name(name: &str) -> (r: bool)
    ensures
        r == valid_var_name(name@),
{
    let chars = text::to_chars(name);
    let mut i: usize = 0;
    while i < chars.len()
        invariant
            i <= chars@.len(),
            chars@ == name@,
            forall|j: int| 0 <= j < i ==> var_char(#[trigger] name@[j]),
        decreases chars@.len() - i,
    {
        if !is_var_char(chars[i]) {
            proof {
                assert(!var_char(name@[i as int]));
            }
            return false;
        }
        i = i + 1;
    }
    chars.len() > 0
}

/// The classes of characters that a run is made of.
#[derive(Clone, Copy, PartialEq, Eq, Structural)]
pub enum Class {
    Bareword,
    Flag,
    Var,
    Digit,
    /// Anything but a single quote.
    Unquoted,
}

pub open spec fn in_class(class: Class, c: char) -> bool {
    match class {
        Class::Bareword => bareword_char(c),
        Class::Flag => flag_char(c),
        Class::Var => var_char(c),
        Class::Digit => text::digit(c),
        Class::Unquoted => c != '\'',
    }
}

fn is_in_class(class: Class, c: char) -> (r: bool)
    ensures
        r == in_class(class, c),
{
    match class {
        Class::Bareword => is_bareword_char(c),
        Class::Flag => is_flag_char(c),
        Class::Var => is_var_char(c),
        Class::Digit => text::is_digit(c),
        Class::Unquoted => c != '\'',
    }
}

/// Where the longest run of characters of a class that starts at `i` ends.
pub open spec fn run_end(s: Seq<char>, i: int, class: Class) -> int
    decreases s.len() - i,
{
    if 0 <= i < s.len() && in_class(class, s[i]) {
        run_end(s, i + 1, class)
    } else {
        i
    }
}

/// A run ends inside the text and no earlier than it starts; it is made of the
/// class, and what follows it is not.
pub proof fn run_end_is(s: Seq<char>, i: int, class: Class)
    requires
        0 <= i <= s.len(),
    ensures
        i <= run_end(s, i, class) <= s.len(),
        forall|j: int| i <= j < run_end(s, i, class) ==> in_class(class, #[trigger] s[j]),
        run_end(s, i, class) < s.len() ==> !in_class(class, s[run_end(s, i, class)]),
    decreases s.len() - i,
{
    if i < s.len() && in_class(class, s[i]) {
        run_end_is(s, i + 1, class);
    }
}

/// The span of the characters from `i` up to `j`.
pub open spec fn span_of(s: Seq<char>, i: int, j: int) -> Span {
    Span { start: text::byte_offset(s, i) as u32, end: text::byte_offset(s, j) as u32 }
}

/// Is there this character at this place?
pub open spec fn has_at(s: Seq<char>, i: int, c: char) -> bool {
    0 <= i < s.len() && s[i] == c
}

/// One step of the lexer: what it makes of the text from a place on, and how
/// far it gets.
pub enum StepView {
    /// Nothing; go on behind it.
    Skip(int),
    /// The line ends here.
    End,
    /// A token; go on behind it.
    Token(TokenView, int),
    Stop(StopView),
}

pub open spec fn parse_error(msg: Seq<char>, span: Span) -> StopView {
    StopView::Fail(ErrorView::at(ErrorKind::Parse, msg, span))
}

/// A token from `i` up to `j`.
pub open spec fn token_step(s: Seq<char>, i: int, j: int, kind: TokenKindView) -> StepView {
    StepView::Token(TokenView { kind, span: span_of(s, i, j) }, j)
}

/// The operator that starts with this character, and its length: the longest
/// that fits.
pub open spec fn operator_at(s: Seq<char>, i: int) -> (Op, int) {
    let eq = has_at(s, i + 1, '=');
    if s[i] == '<' {
        if eq {
            (Op::Le, 2)
        } else {
            (Op::Lt, 1)
        }
    } else if s[i] == '>' {
        if eq {
            (Op::Ge, 2)
        } else {
            (Op::Gt, 1)
        }
    } else if s[i] == '=' {
        if eq {
            (Op::EqEq, 2)
        } else {
            (Op::Assign, 1)
        }
    } else if s[i] == '(' {
        (Op::LParen, 1)
    } else if s[i] == ')' {
        (Op::RParen, 1)
    } else if s[i] == '{' {
        (Op::LBrace, 1)
    } else if s[i] == '}' {
        (Op::RBrace, 1)
    } else if eq {
        (Op::Ne, 2)
    } else {
        (Op::Bang, 1)
    }
}

/// `+ - * / %` are ordinary bareword characters; they are operators only
/// where they stand alone.
pub open spec fn lone_operator(word: Seq<char>) -> Option<Op> {
    if word == seq!['+'] {
        Some(Op::Plus)
    } else if word == seq!['-'] {
        Some(Op::Minus)
    } else if word == seq!['*'] {
        Some(Op::Star)
    } else if word == seq!['/'] {
        Some(Op::Slash)
    } else if word == seq!['%'] {
        Some(Op::Percent)
    } else {
        None
    }
}

pub open spec fn word_kind(word: Seq<char>) -> TokenKindView {
    match lone_operator(word) {
        Some(op) => TokenKindView::Op(op),
        None => TokenKindView::Bareword(word),
    }
}

/// Where the number that starts at `i` ends, and whether it has a point: an
/// optional sign, digits, and a point where a digit follows it.
pub open spec fn number_end(s: Seq<char>, i: int) -> (int, bool) {
    let first = if has_at(s, i, '-') {
        i + 1
    } else {
        i
    };
    let whole = run_end(s, first, Class::Digit);
    if has_at(s, whole, '.') && whole + 1 < s.len() && text::digit(s[whole + 1]) {
        (run_end(s, whole + 1, Class::Digit), true)
    } else {
        (whole, false)
    }
}

/// The integer that an optional sign and digits denote.
pub open spec fn signed_value(t: Seq<char>) -> int {
    if has_at(t, 0, '-') {
        -(text::decimal_value(t.skip(1)) as int)
    } else {
        text::decimal_value(t) as int
    }
}

pub open spec fn fits_i64(n: int) -> bool {
    i64::MIN <= n <= i64::MAX
}

/// Can JavaScript hold the integer exactly?
pub open spec fn js_safe(n: int) -> bool {
    -MAX_SAFE_INT <= n <= MAX_SAFE_INT
}

/// Numbers: `123`, `-123`, `1.5`, `-0.25`. One that runs straight into
/// bareword characters (`2x`) makes the whole word a bareword instead.
pub open spec fn number_step(s: Seq<char>, i: int, replies: ReplySeq) -> StepView {
    let (end, point) = number_end(s, i);
    if end < s.len() && bareword_char(s[end]) {
        let stop = run_end(s, i, Class::Bareword);
        token_step(s, i, stop, TokenKindView::Bareword(s.subrange(i, stop)))
    } else {
        let t = s.subrange(i, end);
        let span = span_of(s, i, end);
        if point {
            match ask::reply_to(replies, QueryView::ParseFloat(t)) {
                Some(ReplyView::Float(f)) => if f.finite() {
                    token_step(s, i, end, TokenKindView::Float(f))
                } else {
                    StepView::Stop(
                        parse_error("number `"@ + t + "` is too large to represent"@, span),
                    )
                },
                Some(ReplyView::Refused(_)) => StepView::Stop(
                    parse_error("invalid number `"@ + t + "`"@, span),
                ),
                _ => StepView::Stop(StopView::Need(QueryView::ParseFloat(t))),
            }
        } else if !fits_i64(signed_value(t)) {
            StepView::Stop(parse_error("integer `"@ + t + "` is out of range"@, span))
        } else if !js_safe(signed_value(t)) {
            StepView::Stop(
                StopView::Fail(
                    ErrorView::at(
                        ErrorKind::Parse,
                        "integer `"@ + t
                            + "` exceeds 2^53 and would lose precision in JavaScript"@,
                        span,
                    ).helped("use a string if you need arbitrary precision"@),
                ),
            )
        } else {
            token_step(s, i, end, TokenKindView::Int(signed_value(t) as i64))
        }
    }
}

/// `'raw string'`: everything up to the next single quote.
pub open spec fn raw_string_step(s: Seq<char>, i: int) -> StepView {
    let end = run_end(s, i + 1, Class::Unquoted);
    if end < s.len() {
        token_step(s, i, end + 1, TokenKindView::StrRaw(s.subrange(i + 1, end)))
    } else {
        StepView::Stop(
            parse_error(
                "unterminated string: expected a closing `'`"@,
                span_of(s, i, s.len() as int),
            ),
        )
    }
}

/// What an escape in a double-quoted string stands for.
pub open spec fn escaped(c: char) -> Option<char> {
    if c == 'n' {
        Some('\n')
    } else if c == 't' {
        Some('\t')
    } else if c == '"' || c == '\\' || c == '$' {
        Some(c)
    } else {
        None
    }
}

/// The parts so far, with the pending literal text as one more.
pub open spec fn with_literal(parts: Seq<InterpPartView>, lit: Seq<char>) -> Seq<InterpPartView> {
    if lit.len() > 0 {
        parts.push(InterpPartView::Lit(lit))
    } else {
        parts
    }
}

pub open spec fn unterminated_interp(s: Seq<char>, i: int) -> StopView {
    parse_error("unterminated string: expected a closing `\"`"@, span_of(s, i, s.len() as int))
}

/// The rest of a double-quoted string that opened at `i`, from `j` on, with
/// the parts and the literal text read so far: its parts and where it ends.
pub open spec fn interp_string(
    s: Seq<char>,
    i: int,
    j: int,
    parts: Seq<InterpPartView>,
    lit: Seq<char>,
) -> Result<(Seq<InterpPartView>, int), StopView>
    decreases s.len() - j,
{
    if !(0 <= j < s.len()) {
        Err(unterminated_interp(s, i))
    } else if s[j] == '"' {
        Ok((with_literal(parts, lit), j + 1))
    } else if s[j] == '\\' {
        if j + 1 >= s.len() {
            Err(unterminated_interp(s, i))
        } else {
            match escaped(s[j + 1]) {
                Some(c) => interp_string(s, i, j + 2, parts, lit.push(c)),
                None => Err(
                    parse_error("unknown escape `\\"@.push(s[j + 1]) + "`"@, span_of(s, j, j + 2)),
                ),
            }
        }
    } else if s[j] == '$' {
        proof {
            run_end_is(s, j + 1, Class::Var);
        }
        let end = run_end(s, j + 1, Class::Var);
        if end <= j + 1 {
            interp_string(s, i, j + 1, parts, lit.push('$'))
        } else {
            interp_string(
                s,
                i,
                end,
                with_literal(parts, lit).push(InterpPartView::Var(s.subrange(j + 1, end))),
                Seq::empty(),
            )
        }
    } else {
        interp_string(s, i, j + 1, parts, lit.push(s[j]))
    }
}

pub open spec fn interp_string_step(s: Seq<char>, i: int) -> StepView {
    match interp_string(s, i, i + 1, Seq::empty(), Seq::empty()) {
        Ok((parts, end)) => token_step(s, i, end, TokenKindView::StrInterp(parts)),
        Err(e) => StepView::Stop(e),
    }
}

/// `$name`
pub open spec fn var_step(s: Seq<char>, i: int) -> StepView {
    let end = run_end(s, i + 1, Class::Var);
    if end <= i + 1 {
        StepView::Stop(parse_error("expected a variable name after `$`"@, span_of(s, i, i + 1)))
    } else {
        token_step(s, i, end, TokenKindView::Var(s.subrange(i + 1, end)))
    }
}

/// `--name`, with the `=` of `--name=value` skipped.
pub open spec fn long_flag_step(s: Seq<char>, i: int) -> StepView {
    let end = run_end(s, i + 2, Class::Flag);
    if end <= i + 2 {
        StepView::Stop(parse_error("expected a flag name after `--`"@, span_of(s, i, i + 2)))
    } else {
        let has_eq = has_at(s, end, '=');
        StepView::Token(
            TokenView {
                kind: TokenKindView::Flag { name: s.subrange(i + 2, end), long: true, has_eq },
                span: span_of(s, i, end),
            },
            if has_eq {
                end + 1
            } else {
                end
            },
        )
    }
}

pub open spec fn all_letters(t: Seq<char>) -> bool {
    forall|i: int| 0 <= i < t.len() ==> text::ascii_letter(#[trigger] t[i])
}

/// What starts with a single `-`: a number, a cluster of short flags (ASCII
/// letters alone), subtraction where it stands alone, or a bareword.
pub open spec fn dash_step(s: Seq<char>, i: int, replies: ReplySeq) -> StepView {
    if i + 1 < s.len() && text::digit(s[i + 1]) {
        number_step(s, i, replies)
    } else if i + 1 < s.len() && text::letter(s[i + 1]) {
        let end = run_end(s, i + 1, Class::Bareword);
        let word = s.subrange(i + 1, end);
        if all_letters(word) {
            token_step(s, i, end, TokenKindView::Flag { name: word, long: false, has_eq: false })
        } else {
            token_step(s, i, end, TokenKindView::Bareword(s.subrange(i, end)))
        }
    } else {
        let end = run_end(s, i, Class::Bareword);
        token_step(s, i, end, word_kind(s.subrange(i, end)))
    }
}

/// The lexer at one place.
pub open spec fn lex_step(s: Seq<char>, i: int, replies: ReplySeq) -> StepView {
    let c = s[i];
    if text::whitespace(c) {
        StepView::Skip(i + 1)
    } else if c == '#' {
        StepView::End
    } else if c == '|' {
        if has_at(s, i + 1, '|') {
            token_step(s, i, i + 2, TokenKindView::Op(Op::OrOr))
        } else {
            token_step(s, i, i + 1, TokenKindView::Pipe)
        }
    } else if c == ';' {
        token_step(s, i, i + 1, TokenKindView::Semi)
    } else if c == '&' {
        if has_at(s, i + 1, '&') {
            token_step(s, i, i + 2, TokenKindView::Op(Op::AndAnd))
        } else {
            token_step(s, i, i + 1, TokenKindView::Reserved("&"@))
        }
    } else if c == '(' || c == ')' || c == '{' || c == '}' || c == '<' || c == '>' || c == '=' || c
        == '!' {
        let (op, len) = operator_at(s, i);
        token_step(s, i, i + len, TokenKindView::Op(op))
    } else if c == '\'' {
        raw_string_step(s, i)
    } else if c == '"' {
        interp_string_step(s, i)
    } else if c == '$' {
        var_step(s, i)
    } else if c == '-' {
        if has_at(s, i + 1, '-') {
            long_flag_step(s, i)
        } else {
            dash_step(s, i, replies)
        }
    } else if text::digit(c) {
        number_step(s, i, replies)
    } else {
        let end = run_end(s, i, Class::Bareword);
        token_step(s, i, end, word_kind(s.subrange(i, end)))
    }
}

pub proof fn number_end_bounds(s: Seq<char>, i: int)
    requires
        0 <= i < s.len(),
        text::digit(s[i]) || (s[i] == '-' && i + 1 < s.len() && text::digit(s[i + 1])),
    ensures
        i < number_end(s, i).0 <= s.len(),
{
    let first = if has_at(s, i, '-') {
        i + 1
    } else {
        i
    };
    run_end_is(s, first, Class::Digit);
    run_end_is(s, first + 1, Class::Digit);
    let whole = run_end(s, first, Class::Digit);
    if has_at(s, whole, '.') {
        run_end_is(s, whole + 1, Class::Digit);
    }
}

proof fn interp_string_bounds(
    s: Seq<char>,
    i: int,
    j: int,
    parts: Seq<InterpPartView>,
    lit: Seq<char>,
)
    requires
        0 <= j <= s.len(),
    ensures
        match interp_string(s, i, j, parts, lit) {
            Ok((_, end)) => j < end <= s.len(),
            Err(_) => true,
        },
    decreases s.len() - j,
{
    if j < s.len() && s[j] != '"' {
        if s[j] == '\\' {
            if j + 1 < s.len() {
                match escaped(s[j + 1]) {
                    Some(c) => interp_string_bounds(s, i, j + 2, parts, lit.push(c)),
                    None => {},
                }
            }
        } else if s[j] == '$' {
            let end = run_end(s, j + 1, Class::Var);
            run_end_is(s, j + 1, Class::Var);
            if end <= j + 1 {
                interp_string_bounds(s, i, j + 1, parts, lit.push('$'));
            } else {
                interp_string_bounds(
                    s,
                    i,
                    end,
                    with_literal(parts, lit).push(InterpPartView::Var(s.subrange(j + 1, end))),
                    Seq::empty(),
                );
            }
        } else {
            interp_string_bounds(s, i, j + 1, parts, lit.push(s[j]));
        }
    }
}

/// The lexer gets on at every step, and never past the end.
pub proof fn lex_step_progress(s: Seq<char>, i: int, replies: ReplySeq)
    requires
        0 <= i < s.len(),
    ensures
        match lex_step(s, i, replies) {
            StepView::Skip(j) => i < j <= s.len(),
            StepView::Token(_, j) => i < j <= s.len(),
            _ => true,
        },
{
    run_end_is(s, i, Class::Bareword);
    run_end_is(s, i + 1, Class::Bareword);
    run_end_is(s, i + 1, Class::Unquoted);
    run_end_is(s, i + 1, Class::Var);
    if has_at(s, i + 1, '-') {
        run_end_is(s, i + 2, Class::Flag);
    }
    if text::digit(s[i]) || (s[i] == '-' && i + 1 < s.len() && text::digit(s[i + 1])) {
        number_end_bounds(s, i);
    }
    interp_string_bounds(s, i, i + 1, Seq::empty(), Seq::empty());
}

/// The tokens of a line from a place on.
pub open spec fn lex_from(s: Seq<char>, i: int, replies: ReplySeq) -> Result<
    Seq<TokenView>,
    StopView,
>
    decreases s.len() - i,
{
    if !(0 <= i < s.len()) {
        Ok(Seq::empty())
    } else {
        proof {
            lex_step_progress(s, i, replies);
        }
        match lex_step(s, i, replies) {
            StepView::Skip(j) => lex_from(s, j, replies),
            StepView::End => Ok(Seq::empty()),
            StepView::Token(t, j) => match lex_from(s, j, replies) {
                Ok(rest) => Ok(seq![t] + rest),
                Err(e) => Err(e),
            },
            StepView::Stop(e) => Err(e),
        }
    }
}

/// The tokens of a line.
pub open spec fn lexed(s: Seq<char>, replies: ReplySeq) -> Result<Seq<TokenView>, StopView> {
    lex_from(s, 0, replies)
}

/// Tokens, with more in front of them.
pub open spec fn prefixed(
    front: Seq<TokenView>,
    rest: Result<Seq<TokenView>, StopView>,
) -> Result<Seq<TokenView>, StopView> {
    match rest {
        Ok(tokens) => Ok(front + tokens),
        Err(e) => Err(e),
    }
}

/// A line as characters, with the byte offset of each and of the end.
struct Source {
    chars: Vec<char>,
    offsets: Vec<u32>,
}

impl Source {
    spec fn wf(self) -> bool {
        &&& self.offsets@.len() == self.chars@.len() + 1
        &&& self.chars@.len() < usize::MAX
        &&& forall|k: int|
            0 <= k <= self.chars@.len() ==> #[trigger] self.offsets@[k] == text::byte_offset(
                self.chars@,
                k,
            )
    }

    fn new(src: &str) -> (r: Self)
        requires
            text::byte_len(src@) <= u32::MAX,
        ensures
            r.wf(),
            r.chars@ == src@,
    {
        let chars = text::to_chars(src);
        let mut offsets: Vec<u32> = Vec::new();
        let mut b: u32 = 0;
        let mut k: usize = 0;
        offsets.push(0);
        proof {
            text::byte_offset_end(src@);
        }
        while k < chars.len()
            invariant
                chars@ == src@,
                k <= chars@.len(),
                text::byte_len(src@) <= u32::MAX,
                b == text::byte_offset(src@, k as int),
                offsets@.len() == k + 1,
                forall|j: int|
                    0 <= j <= k ==> #[trigger] offsets@[j] == text::byte_offset(src@, j),
            decreases chars@.len() - k,
        {
            proof {
                text::byte_offset_step(src@, k as int);
                text::byte_offset_monotone(src@, k + 1, src@.len() as int);
                text::byte_offset_end(src@);
            }
            b = b + text::utf8_width(chars[k]) as u32;
            offsets.push(b);
            k = k + 1;
        }
        // The number of offsets fits in a `usize`.
        let _count: usize = offsets.len();
        Source { chars, offsets }
    }

    fn span(&self, i: usize, j: usize) -> (r: Span)
        requires
            self.wf(),
            i <= self.chars@.len(),
            j <= self.chars@.len(),
        ensures
            r == span_of(self.chars@, i as int, j as int),
    {
        Span::new(self.offsets[i], self.offsets[j])
    }

    fn has(&self, i: usize, c: char) -> (r: bool)
        ensures
            r == has_at(self.chars@, i as int, c),
    {
        i < self.chars.len() && self.chars[i] == c
    }

    fn run(&self, i: usize, class: Class) -> (r: usize)
        requires
            i <= self.chars@.len(),
        ensures
            r == run_end(self.chars@, i as int, class),
            i <= r <= self.chars@.len(),
    {
        let mut k: usize = i;
        while k < self.chars.len() && is_in_class(class, self.chars[k])
            invariant
                i <= k <= self.chars@.len(),
                run_end(self.chars@, i as int, class) == run_end(self.chars@, k as int, class),
            decreases self.chars@.len() - k,
        {
            k = k + 1;
        }
        k
    }

    fn token(&self, i: usize, j: usize, kind: TokenKind) -> (r: Step)
        requires
            self.wf(),
            i <= self.chars@.len(),
            j <= self.chars@.len(),
        ensures
            r@ == token_step(self.chars@, i as int, j as int, kind@),
    {
        Step::Token(Token { kind, span: self.span(i, j) }, j)
    }
}

/// One step of the lexer.
enum Step {
    Skip(usize),
    End,
    Token(Token, usize),
    Stop(Stop),
}

impl View for Step {
    type V = StepView;

    closed spec fn view(&self) -> StepView {
        match *self {
            Step::Skip(j) => StepView::Skip(j as int),
            Step::End => StepView::End,
            Step::Token(t, j) => StepView::Token(t@, j as int),
            Step::Stop(e) => StepView::Stop(e@),
        }
    }
}

/// Operators and grouping, longest match first.
fn lex_operator(src: &Source, i: usize) -> (r: (Op, usize))
    requires
        src.wf(),
        i < src.chars@.len(),
    ensures
        r.0 == operator_at(src.chars@, i as int).0,
        r.1 == operator_at(src.chars@, i as int).1,
        1 <= r.1 <= 2,
        i + r.1 <= src.chars@.len(),
{
    let eq = src.has(i + 1, '=');
    let c = src.chars[i];
    if c == '<' {
        if eq {
            (Op::Le, 2)
        } else {
            (Op::Lt, 1)
        }
    } else if c == '>' {
        if eq {
            (Op::Ge, 2)
        } else {
            (Op::Gt, 1)
        }
    } else if c == '=' {
        if eq {
            (Op::EqEq, 2)
        } else {
            (Op::Assign, 1)
        }
    } else if c == '(' {
        (Op::LParen, 1)
    } else if c == ')' {
        (Op::RParen, 1)
    } else if c == '{' {
        (Op::LBrace, 1)
    } else if c == '}' {
        (Op::RBrace, 1)
    } else if eq {
        (Op::Ne, 2)
    } else {
        (Op::Bang, 1)
    }
}

/// The operator that a word is, where it stands alone.
fn standalone_operator(src: &Source, i: usize, j: usize) -> (r: Option<Op>)
    requires
        i <= j <= src.chars@.len(),
    ensures
        r == lone_operator(src.chars@.subrange(i as int, j as int)),
{
    let ghost word = src.chars@.subrange(i as int, j as int);
    if j - i != 1 {
        proof {
            assert(word.len() != 1);
        }
        return None;
    }
    let c = src.chars[i];
    proof {
        assert(word[0] == c);
        assert(word =~= seq![c]);
        assert(seq!['+'][0] == '+' && seq!['-'][0] == '-' && seq!['*'][0] == '*' && seq!['/'][0]
            == '/' && seq!['%'][0] == '%');
    }
    if c == '+' {
        Some(Op::Plus)
    } else if c == '-' {
        Some(Op::Minus)
    } else if c == '*' {
        Some(Op::Star)
    } else if c == '/' {
        Some(Op::Slash)
    } else if c == '%' {
        Some(Op::Percent)
    } else {
        None
    }
}

/// The token of a word from `i` up to `j`.
fn lex_word(src: &Source, i: usize, j: usize) -> (r: Step)
    requires
        src.wf(),
        i <= j <= src.chars@.len(),
    ensures
        r@ == token_step(
            src.chars@,
            i as int,
            j as int,
            word_kind(src.chars@.subrange(i as int, j as int)),
        ),
{
    match standalone_operator(src, i, j) {
        Some(op) => src.token(i, j, TokenKind::Op(op)),
        None => src.token(i, j, TokenKind::Bareword(text::slice_text(&src.chars, i, j))),
    }
}

fn fail(msg: &str, span: Span) -> (r: Step)
    ensures
        r@ == StepView::Stop(parse_error(msg@, span)),
{
    Step::Stop(Stop::Fail(ShellError::parse(msg, span)))
}

/// The integer of an optional sign and digits; nothing where it does not fit.
fn int_value(src: &Source, i: usize, j: usize) -> (r: Option<i64>)
    requires
        i < j <= src.chars@.len(),
        forall|k: int|
            (if src.chars@[i as int] == '-' {
                i + 1
            } else {
                i as int
            }) <= k < j ==> text::digit(#[trigger] src.chars@[k]),
    ensures
        match r {
            Some(n) => n == signed_value(src.chars@.subrange(i as int, j as int)),
            None => !fits_i64(signed_value(src.chars@.subrange(i as int, j as int))),
        },
{
    let ghost t = src.chars@.subrange(i as int, j as int);
    let negative = src.chars[i] == '-';
    let first: usize = if negative { i + 1 } else { i };
    let ghost digits = src.chars@.subrange(first as int, j as int);
    proof {
        if negative {
            assert(t.skip(1) =~= digits);
        } else {
            assert(t =~= digits);
        }
        assert(t[0] == src.chars@[i as int]);
    }
    let mut acc: u64 = 0;
    let mut big = false;
    let mut k: usize = first;
    while k < j
        invariant
            first <= k <= j <= src.chars@.len(),
            digits == src.chars@.subrange(first as int, j as int),
            forall|l: int| first <= l < j ==> text::digit(#[trigger] src.chars@[l]),
            !big ==> acc == text::decimal_value(digits.take(k - first)),
            big ==> text::decimal_value(digits.take(k - first)) > 0x8000_0000_0000_0000,
        decreases j - k,
    {
        let c = src.chars[k];
        proof {
            assert(digits.take(k - first + 1).drop_last() =~= digits.take(k - first));
            assert(digits.take(k - first + 1).last() == c);
            assert(text::digit(src.chars@[k as int]));
        }
        let d: u64 = (c as u32 - '0' as u32) as u64;
        if acc > 922_337_203_685_477_580 {
            big = true;
        } else {
            acc = acc * 10 + d;
        }
        k = k + 1;
    }
    proof {
        assert(digits.take(digits.len() as int) =~= digits);
    }
    if big {
        None
    } else if negative {
        if acc <= 0x8000_0000_0000_0000 {
            Some((-(acc as i128)) as i64)
        } else {
            None
        }
    } else if acc <= 0x7fff_ffff_ffff_ffff {
        Some(acc as i64)
    } else {
        None
    }
}

fn lex_number(src: &Source, i: usize, replies: &Replies) -> (r: Step)
    requires
        src.wf(),
        i < src.chars@.len(),
        text::digit(src.chars@[i as int]) || (src.chars@[i as int] == '-' && i + 1
            < src.chars@.len() && text::digit(src.chars@[i + 1])),
    ensures
        r@ == number_step(src.chars@, i as int, replies@),
{
    proof {
        number_end_bounds(src.chars@, i as int);
    }
    let first: usize = if src.chars[i] == '-' { i + 1 } else { i };
    let whole: usize = src.run(first, Class::Digit);
    let point = src.has(whole, '.') && whole + 1 < src.chars.len() && text::is_digit(
        src.chars[whole + 1],
    );
    let end: usize = if point { src.run(whole + 1, Class::Digit) } else { whole };
    if end < src.chars.len() && is_bareword_char(src.chars[end]) {
        let stop: usize = src.run(i, Class::Bareword);
        return src.token(i, stop, TokenKind::Bareword(text::slice_text(&src.chars, i, stop)));
    }
    let t = text::slice_text(&src.chars, i, end);
    let span = src.span(i, end);
    if point {
        let query = Query::ParseFloat(t.clone());
        match replies.find(&query) {
            Some(Reply::Float(f)) => {
                if f.is_finite() {
                    src.token(i, end, TokenKind::Float(*f))
                } else {
                    fail(
                        text::around("number `", t.as_str(), "` is too large to represent").as_str(),
                        span,
                    )
                }
            },
            Some(Reply::Refused(_)) => fail(
                text::around("invalid number `", t.as_str(), "`").as_str(),
                span,
            ),
            _ => Step::Stop(Stop::Need(query)),
        }
    } else {
        proof {
            run_end_is(src.chars@, first as int, Class::Digit);
        }
        match int_value(src, i, end) {
            None => fail(text::around("integer `", t.as_str(), "` is out of range").as_str(), span),
            Some(n) => {
                if n > MAX_SAFE_INT || n < -MAX_SAFE_INT {
                    Step::Stop(
                        Stop::Fail(
                            ShellError::parse(
                                text::around(
                                    "integer `",
                                    t.as_str(),
                                    "` exceeds 2^53 and would lose precision in JavaScript",
                                ).as_str(),
                                span,
                            ).with_help("use a string if you need arbitrary precision"),
                        ),
                    )
                } else {
                    src.token(i, end, TokenKind::Int(n))
                }
            },
        }
    }
}

fn lex_raw_string(src: &Source, i: usize) -> (r: Step)
    requires
        src.wf(),
        i < src.chars@.len(),
    ensures
        r@ == raw_string_step(src.chars@, i as int),
{
    let end: usize = src.run(i + 1, Class::Unquoted);
    if end < src.chars.len() {
        src.token(i, end + 1, TokenKind::StrRaw(text::slice_text(&src.chars, i + 1, end)))
    } else {
        fail("unterminated string: expected a closing `'`", src.span(i, src.chars.len()))
    }
}

fn unescape(c: char) -> (r: Option<char>)
    ensures
        r == escaped(c),
{
    if c == 'n' {
        Some('\n')
    } else if c == 't' {
        Some('\t')
    } else if c == '"' || c == '\\' || c == '$' {
        Some(c)
    } else {
        None
    }
}

/// Close the pending literal text, if there is any.
fn close_literal(parts: &mut Vec<InterpPart>, lit: String)
    ensures
        parts_view(final(parts)@) == with_literal(parts_view(old(parts)@), lit@),
{
    if !lit.as_str().is_empty() {
        parts.push(InterpPart::Lit(lit));
        proof {
            assert(parts_view(parts@) =~= parts_view(old(parts)@).push(InterpPartView::Lit(lit@)));
        }
    }
}

/// Double-quoted string with `$var` interpolation and `\"`, `\\`, `\n`, `\t`,
/// `\$` escapes.
fn lex_interp_string(src: &Source, i: usize) -> (r: Step)
    requires
        src.wf(),
        i < src.chars@.len(),
    ensures
        r@ == interp_string_step(src.chars@, i as int),
{
    let ghost s = src.chars@;
    let ghost whole = interp_string(s, i as int, i + 1, Seq::empty(), Seq::empty());
    let mut parts: Vec<InterpPart> = Vec::new();
    let mut lit = String::new();
    let mut j: usize = i + 1;
    proof {
        assert(parts_view(parts@) =~= Seq::empty());
    }
    while j < src.chars.len()
        invariant
            src.wf(),
            s == src.chars@,
            i < j <= s.len(),
            whole == interp_string(s, i as int, i + 1, Seq::empty(), Seq::empty()),
            whole == interp_string(s, i as int, j as int, parts_view(parts@), lit@),
        decreases s.len() - j,
    {
        let c = src.chars[j];
        if c == '"' {
            close_literal(&mut parts, lit);
            return src.token(i, j + 1, TokenKind::StrInterp(parts));
        } else if c == '\\' {
            if j + 1 >= src.chars.len() {
                return fail(
                    "unterminated string: expected a closing `\"`",
                    src.span(i, src.chars.len()),
                );
            }
            match unescape(src.chars[j + 1]) {
                Some(e) => {
                    lit.push(e);
                    j = j + 2;
                },
                None => {
                    let mut m = "unknown escape `\\".to_owned();
                    m.push(src.chars[j + 1]);
                    m.append("`");
                    return fail(m.as_str(), src.span(j, j + 2));
                },
            }
        } else if c == '$' {
            let end: usize = src.run(j + 1, Class::Var);
            if end <= j + 1 {
                lit.push('$');
                j = j + 1;
            } else {
                close_literal(&mut parts, lit);
                lit = String::new();
                let ghost before = parts@;
                let name = text::slice_text(&src.chars, j + 1, end);
                parts.push(InterpPart::Var(name));
                proof {
                    assert(parts_view(parts@) =~= parts_view(before).push(
                        InterpPartView::Var(s.subrange(j + 1, end as int)),
                    ));
                }
                j = end;
            }
        } else {
            lit.push(c);
            j = j + 1;
        }
    }
    fail("unterminated string: expected a closing `\"`", src.span(i, src.chars.len()))
}

fn is_all_letters(src: &Source, i: usize, j: usize) -> (r: bool)
    requires
        i <= j <= src.chars@.len(),
    ensures
        r == all_letters(src.chars@.subrange(i as int, j as int)),
{
    let ghost word = src.chars@.subrange(i as int, j as int);
    let mut k: usize = i;
    while k < j
        invariant
            i <= k <= j <= src.chars@.len(),
            word == src.chars@.subrange(i as int, j as int),
            forall|l: int| 0 <= l < k - i ==> text::ascii_letter(#[trigger] word[l]),
        decreases j - k,
    {
        if !text::is_ascii_letter(src.chars[k]) {
            proof {
                assert(!text::ascii_letter(word[k - i]));
            }
            return false;
        }
        k = k + 1;
    }
    true
}

fn lex_dash(src: &Source, i: usize, replies: &Replies) -> (r: Step)
    requires
        src.wf(),
        i < src.chars@.len(),
        src.chars@[i as int] == '-',
    ensures
        r@ == dash_step(src.chars@, i as int, replies@),
{
    if i + 1 < src.chars.len() && text::is_digit(src.chars[i + 1]) {
        lex_number(src, i, replies)
    } else if i + 1 < src.chars.len() && text::is_letter(src.chars[i + 1]) {
        let end: usize = src.run(i + 1, Class::Bareword);
        if is_all_letters(src, i + 1, end) {
            src.token(
                i,
                end,
                TokenKind::Flag {
                    name: text::slice_text(&src.chars, i + 1, end),
                    long: false,
                    has_eq: false,
                },
            )
        } else {
            src.token(i, end, TokenKind::Bareword(text::slice_text(&src.chars, i, end)))
        }
    } else {
        let end: usize = src.run(i, Class::Bareword);
        lex_word(src, i, end)
    }
}

fn lex_long_flag(src: &Source, i: usize) -> (r: Step)
    requires
        src.wf(),
        i + 1 < src.chars@.len(),
    ensures
        r@ == long_flag_step(src.chars@, i as int),
{
    let end: usize = src.run(i + 2, Class::Flag);
    if end <= i + 2 {
        fail("expected a flag name after `--`", src.span(i, i + 2))
    } else {
        let has_eq = src.has(end, '=');
        let kind = TokenKind::Flag {
            name: text::slice_text(&src.chars, i + 2, end),
            long: true,
            has_eq,
        };
        Step::Token(Token { kind, span: src.span(i, end) }, if has_eq { end + 1 } else { end })
    }
}

fn lex_var(src: &Source, i: usize) -> (r: Step)
    requires
        src.wf(),
        i < src.chars@.len(),
    ensures
        r@ == var_step(src.chars@, i as int),
{
    let end: usize = src.run(i + 1, Class::Var);
    if end <= i + 1 {
        fail("expected a variable name after `$`", src.span(i, i + 1))
    } else {
        src.token(i, end, TokenKind::Var(text::slice_text(&src.chars, i + 1, end)))
    }
}

fn step(src: &Source, i: usize, replies: &Replies) -> (r: Step)
    requires
        src.wf(),
        i < src.chars@.len(),
    ensures
        r@ == lex_step(src.chars@, i as int, replies@),
{
    let c = src.chars[i];
    if text::is_whitespace(c) {
        Step::Skip(i + 1)
    } else if c == '#' {
        Step::End
    } else if c == '|' {
        if src.has(i + 1, '|') {
            src.token(i, i + 2, TokenKind::Op(Op::OrOr))
        } else {
            src.token(i, i + 1, TokenKind::Pipe)
        }
    } else if c == ';' {
        src.token(i, i + 1, TokenKind::Semi)
    } else if c == '&' {
        if src.has(i + 1, '&') {
            src.token(i, i + 2, TokenKind::Op(Op::AndAnd))
        } else {
            src.token(i, i + 1, TokenKind::Reserved("&".to_owned()))
        }
    } else if c == '(' || c == ')' || c == '{' || c == '}' || c == '<' || c == '>' || c == '=' || c
        == '!' {
        let (op, len) = lex_operator(src, i);
        src.token(i, i + len, TokenKind::Op(op))
    } else if c == '\'' {
        lex_raw_string(src, i)
    } else if c == '"' {
        lex_interp_string(src, i)
    } else if c == '$' {
        lex_var(src, i)
    } else if c == '-' {
        if src.has(i + 1, '-') {
            lex_long_flag(src, i)
        } else {
            lex_dash(src, i, replies)
        }
    } else if text::is_digit(c) {
        lex_number(src, i, replies)
    } else {
        let end: usize = src.run(i, Class::Bareword);
        lex_word(src, i, end)
    }
}

/// The tokens of a line.
pub fn lex(src: &str, replies: &Replies) -> (r: Result<Vec<Token>, Stop>)
    requires
        text::byte_len(src@) <= u32::MAX,
    ensures
        match r {
            Ok(tokens) => lexed(src@, replies@) == Ok::<Seq<TokenView>, StopView>(
                tokens_view(tokens@),
            ),
            Err(e) => lexed(src@, replies@) == Err::<Seq<TokenView>, StopView>(e@),
        },
{
    let source = Source::new(src);
    let mut tokens: Vec<Token> = Vec::new();
    let mut i: usize = 0;
    proof {
        match lexed(src@, replies@) {
            Ok(all) => {
                assert(tokens_view(tokens@) + all =~= all);
            },
            Err(_) => {},
        }
    }
    while i < source.chars.len()
        invariant
            source.wf(),
            source.chars@ == src@,
            i <= src@.len(),
            lexed(src@, replies@) == prefixed(
                tokens_view(tokens@),
                lex_from(src@, i as int, replies@),
            ),
        ensures
            lexed(src@, replies@) == Ok::<Seq<TokenView>, StopView>(tokens_view(tokens@)),
        decreases src@.len() - i,
    {
        proof {
            lex_step_progress(src@, i as int, replies@);
        }
        match step(&source, i, replies) {
            Step::Skip(j) => {
                i = j;
            },
            Step::End => {
                proof {
                    assert(tokens_view(tokens@) + Seq::<TokenView>::empty() =~= tokens_view(
                        tokens@,
                    ));
                }
                break ;
            },
            Step::Token(t, j) => {
                proof {
                    let front = tokens_view(tokens@);
                    assert(tokens_view(tokens@.push(t)) =~= front.push(t@));
                    match lex_from(src@, j as int, replies@) {
                        Ok(rest) => {
                            assert(front + (seq![t@] + rest) =~= front.push(t@) + rest);
                        },
                        Err(_) => {},
                    }
                }
                tokens.push(t);
                i = j;
            },
            Step::Stop(e) => {
                return Err(e);
            },
        }
        proof {
            if i >= src@.len() {
                assert(tokens_view(tokens@) + Seq::<TokenView>::empty() =~= tokens_view(tokens@));
            }
        }
    }
    Ok(tokens)
}

/// Where a token that starts at `i` lies.
proof fn token_span_is(s: Seq<char>, i: int, replies: ReplySeq) -> (e: int)
    requires
        0 <= i < s.len(),
        lex_step(s, i, replies) is Token,
    ensures
        lex_step(s, i, replies) matches StepView::Token(t, j) && i < e <= j <= s.len() && t.span
            == span_of(s, i, e),
{
    lex_step_progress(s, i, replies);
    if s[i] == '-' && has_at(s, i + 1, '-') {
        run_end(s, i + 2, Class::Flag)
    } else {
        lex_step(s, i, replies)->Token_1
    }
}

/// Spans are byte-accurate: every token covers at least one byte of the line,
/// on character boundaries, and the tokens follow each other without overlap.
pub proof fn spans_follow_each_other(s: Seq<char>, i: int, replies: ReplySeq)
    requires
        text::byte_len(s) <= u32::MAX,
        0 <= i <= s.len(),
    ensures
        match lex_from(s, i, replies) {
            Ok(tokens) => {
                &&& forall|k: int|
                    #![trigger tokens[k]]
                    0 <= k < tokens.len() ==> text::byte_offset(s, i) <= tokens[k].span.start
                        < tokens[k].span.end <= text::byte_len(s)
                &&& forall|k: int|
                    #![trigger tokens[k]]
                    0 <= k < tokens.len() ==> exists|a: int, b: int|
                        i <= a < b <= s.len() && tokens[k].span == span_of(s, a, b)
                &&& forall|k: int, l: int|
                    #![trigger tokens[k], tokens[l]]
                    0 <= k < l < tokens.len() ==> tokens[k].span.end <= tokens[l].span.start
            },
            Err(_) => true,
        },
    decreases s.len() - i,
{
    if i < s.len() {
        lex_step_progress(s, i, replies);
        match lex_step(s, i, replies) {
            StepView::Skip(j) => {
                text::byte_offset_monotone(s, i, j);
                spans_follow_each_other(s, j, replies);
            },
            StepView::Token(t, j) => {
                let e = token_span_is(s, i, replies);
                text::byte_offset_monotone(s, i, e);
                text::byte_offset_monotone(s, e, j);
                text::byte_offset_monotone(s, j, s.len() as int);
                text::byte_offset_end(s);
                spans_follow_each_other(s, j, replies);
                assert(t.span == span_of(s, i, e));
                match lex_from(s, j, replies) {
                    Ok(rest) => {
                        let tokens = seq![t] + rest;
                        assert forall|k: int| 0 < k < tokens.len() implies tokens[k] == rest[k - 1] by {}
                        assert(tokens[0] == t);
                    },
                    Err(_) => {},
                }
            },
            _ => {},
        }
    }
}

/// More replies never change a result that did not wait for one.
pub proof fn lexing_is_stable(s: Seq<char>, i: int, replies: ReplySeq, more: ReplySeq)
    requires
        !(lex_from(s, i, replies) matches Err(StopView::Need(_))),
    ensures
        lex_from(s, i, replies + more) == lex_from(s, i, replies),
    decreases s.len() - i,
{
    if 0 <= i < s.len() {
        lex_step_progress(s, i, replies);
        let (end, _) = number_end(s, i);
        let query = QueryView::ParseFloat(s.subrange(i, end));
        if ask::reply_to(replies, query) is Some {
            ask::replies_are_stable(replies, more, query);
        }
        assert(lex_step(s, i, replies) == lex_step(s, i, replies + more));
        match lex_step(s, i, replies) {
            StepView::Skip(j) => lexing_is_stable(s, j, replies, more),
            StepView::Token(_, j) => lexing_is_stable(s, j, replies, more),
            _ => {},
        }
    }
}

} // verus!
