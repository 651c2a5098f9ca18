//! The lexer: a pull-based producer of classified, positioned tokens from an
//! in-memory source string.
//!
//! The classification of a token never depends on previously emitted tokens,
//! so syntactically invalid sequences (three commas in a row) tokenize
//! successfully and are only rejected by the parser. Whitespace is an
//! explicit token kind rather than silently skipped; the parser filters it.
//!
//! The whole behaviour of the lexer is written down as a specification-level
//! tokenizer ([`lex_one`], [`spec_tokenize`]); [`tokenize`] and
//! [`Lexer::next`] are proved to agree with it exactly, errors included.

use vstd::prelude::*;
use vstd::string::{StrSliceExecFns, StringExecFns};
use crate::pos::{Position, pos_matches, byte_offset_at, line_at, col_at, utf8_len, char_utf8_len};
use crate::pos::{lemma_byte_offset_mono, lemma_byte_offset_at_least, lemma_line_col_bounds};
pub use crate::token::{Token, TokenKind, DelimToken, Keyword, Literal, TokView, LitView};

verus! {

// === Character classes ===
//
// Identifier characters follow the Unicode classes that `char::is_alphabetic`
// and `char::is_numeric` decide; whitespace follows `char::is_whitespace`.
// Within ASCII those classes are written out below; beyond ASCII they are
// named, and the named results are tied to the standard library by the
// trusted wrappers further down.

/// What `char::is_alphabetic` returns for a character beyond ASCII.
pub uninterp spec fn unicode_alphabetic(c: char) -> bool;

/// What `char::is_numeric` returns for a character beyond ASCII.
pub uninterp spec fn unicode_numeric(c: char) -> bool;

/// What `char::is_whitespace` returns for a character beyond ASCII.
pub uninterp spec fn unicode_whitespace(c: char) -> bool;

/// A character that can start an identifier: an alphabetic character.
pub open spec fn is_ident_start(c: char) -> bool {
    if (c as u32) < 128 {
        (97 <= c as u32 && c as u32 <= 122) || (65 <= c as u32 && c as u32 <= 90)
    } else {
        unicode_alphabetic(c)
    }
}

/// A numeric character.
pub open spec fn is_num(c: char) -> bool {
    if (c as u32) < 128 {
        48 <= c as u32 && c as u32 <= 57
    } else {
        unicode_numeric(c)
    }
}

/// A character that can continue an identifier: alphabetic or numeric.
pub open spec fn is_ident_continue(c: char) -> bool {
    is_ident_start(c) || is_num(c)
}

/// A whitespace character.
pub open spec fn is_white(c: char) -> bool {
    if (c as u32) < 128 {
        c as u32 == 9 || c as u32 == 10 || c as u32 == 11 || c as u32 == 12 || c as u32 == 13
            || c as u32 == 32
    } else {
        unicode_whitespace(c)
    }
}

/// An ASCII decimal digit, the leading character of an integer literal.
pub open spec fn is_digit(c: char) -> bool {
    48 <= c as u32 && c as u32 <= 57
}

/// Whether `c` can start an identifier.
///
/// Relies on `char::is_alphabetic`: it decides the Unicode `Alphabetic`
/// property, a function of the character alone; within ASCII exactly the
/// letters have it.
#[verifier::external_body]
pub fn can_start_identifier(c: char) -> (r: bool)
    ensures
        r == is_ident_start(c),
        (c as u32) >= 128 ==> r == unicode_alphabetic(c),
{
    c.is_alphabetic()
}

/// Whether `c` is numeric.
///
/// Relies on `char::is_numeric`: it decides the Unicode numeric classes, a
/// function of the character alone; within ASCII exactly the digits are in
/// them.
#[verifier::external_body]
fn char_is_numeric(c: char) -> (r: bool)
    ensures
        r == is_num(c),
        (c as u32) >= 128 ==> r == unicode_numeric(c),
{
    c.is_numeric()
}

/// Whether `c` is whitespace.
///
/// Relies on `char::is_whitespace`: it decides the Unicode `White_Space`
/// property, a function of the character alone; within ASCII exactly
/// HT, LF, VT, FF, CR and the space have it.
#[verifier::external_body]
fn char_is_whitespace(c: char) -> (r: bool)
    ensures
        r == is_white(c),
        (c as u32) >= 128 ==> r == unicode_whitespace(c),
{
    c.is_whitespace()
}

/// Whether `c` can continue an identifier: alphabetic or numeric.
pub fn can_continue_identifier(c: char) -> (r: bool)
    ensures
        r == is_ident_continue(c),
{
    can_start_identifier(c) || char_is_numeric(c)
}

// === The specification-level tokenizer ===

/// The digit class as a function value, for [`run_len`].
pub open spec fn digit_pred() -> spec_fn(char) -> bool {
    |ch: char| is_digit(ch)
}

/// The identifier-continuation class as a function value, for [`run_len`].
pub open spec fn ident_continue_pred() -> spec_fn(char) -> bool {
    |ch: char| is_ident_continue(ch)
}

/// The whitespace class as a function value, for [`run_len`].
pub open spec fn white_pred() -> spec_fn(char) -> bool {
    |ch: char| is_white(ch)
}

/// The length of the run of characters from index `i` on that satisfy `p`.
pub open spec fn run_len(s: Seq<char>, i: int, p: spec_fn(char) -> bool) -> int
    decreases s.len() - i,
{
    if i < 0 || i >= s.len() {
        0
    } else if p(s[i]) {
        1 + run_len(s, i + 1, p)
    } else {
        0
    }
}

/// The first index at or after `i` whose character equals `q`, if any.
pub open spec fn scan_until(s: Seq<char>, i: int, q: char) -> Option<int>
    decreases s.len() - i,
{
    if i < 0 || i >= s.len() {
        None
    } else if s[i] == q {
        Some(i)
    } else {
        scan_until(s, i + 1, q)
    }
}

/// The keyword that the identifier text `s` spells, if any.
pub open spec fn keyword_of(s: Seq<char>) -> Option<Keyword> {
    if s == "break"@ {
        Some(Keyword::Break)
    } else if s == "case"@ {
        Some(Keyword::Case)
    } else if s == "chan"@ {
        Some(Keyword::Chan)
    } else if s == "const"@ {
        Some(Keyword::Const)
    } else if s == "continue"@ {
        Some(Keyword::Continue)
    } else if s == "default"@ {
        Some(Keyword::Default)
    } else if s == "defer"@ {
        Some(Keyword::Defer)
    } else if s == "else"@ {
        Some(Keyword::Else)
    } else if s == "fallthrough"@ {
        Some(Keyword::Fallthrough)
    } else if s == "for"@ {
        Some(Keyword::For)
    } else if s == "func"@ {
        Some(Keyword::Func)
    } else if s == "go"@ {
        Some(Keyword::Go)
    } else if s == "goto"@ {
        Some(Keyword::Goto)
    } else if s == "if"@ {
        Some(Keyword::If)
    } else if s == "import"@ {
        Some(Keyword::Import)
    } else if s == "interface"@ {
        Some(Keyword::Interface)
    } else if s == "map"@ {
        Some(Keyword::MapKw)
    } else if s == "package"@ {
        Some(Keyword::Package)
    } else if s == "range"@ {
        Some(Keyword::Range)
    } else if s == "return"@ {
        Some(Keyword::Return)
    } else if s == "select"@ {
        Some(Keyword::Select)
    } else if s == "struct"@ {
        Some(Keyword::Struct)
    } else if s == "switch"@ {
        Some(Keyword::Switch)
    } else if s == "type"@ {
        Some(Keyword::Type)
    } else if s == "var"@ {
        Some(Keyword::Var)
    } else {
        None
    }
}

/// The token view of an identifier run: a keyword on a hit in the keyword
/// table, a plain identifier otherwise.
pub open spec fn ident_or_keyword(s: Seq<char>) -> TokView {
    match keyword_of(s) {
        Some(k) => TokView::Keyword(k),
        None => TokView::Ident(s),
    }
}

/// The two ways tokenization of a single token can fail, before a position is
/// attached.
#[derive(Debug, Clone, Copy, PartialEq, Eq, Structural)]
pub enum LexErrorKind {
    /// No token can start with this character.
    UnexpectedChar(char),
    /// A string literal's closing quote is missing.
    UnterminatedString,
}

/// A lexical error: its kind and the position of the offending character (for
/// an unterminated string literal, of its opening quote).
#[derive(Debug, Clone, Copy, PartialEq, Eq)]
pub struct LexError {
    pub kind: LexErrorKind,
    pub pos: Position,
}

/// A helper for one-character operators with `=`-suffixed doubles: `t1` if
/// the next character is `c1`, the short form `t0` otherwise.
pub open spec fn op2(s: Seq<char>, i: int, c1: char, t1: TokView, t0: TokView) -> (TokView, int) {
    if i + 1 < s.len() && s[i + 1] == c1 {
        (t1, i + 2)
    } else {
        (t0, i + 1)
    }
}

/// Like [`op2`] with two possible following characters.
pub open spec fn op3(
    s: Seq<char>,
    i: int,
    c1: char,
    t1: TokView,
    c2: char,
    t2: TokView,
    t0: TokView,
) -> (TokView, int) {
    if i + 1 < s.len() && s[i + 1] == c1 {
        (t1, i + 2)
    } else if i + 1 < s.len() && s[i + 1] == c2 {
        (t2, i + 2)
    } else {
        (t0, i + 1)
    }
}

/// Like [`op2`] with three possible following characters.
pub open spec fn op4(
    s: Seq<char>,
    i: int,
    c1: char,
    t1: TokView,
    c2: char,
    t2: TokView,
    c3: char,
    t3: TokView,
    t0: TokView,
) -> (TokView, int) {
    if i + 1 < s.len() && s[i + 1] == c1 {
        (t1, i + 2)
    } else if i + 1 < s.len() && s[i + 1] == c2 {
        (t2, i + 2)
    } else if i + 1 < s.len() && s[i + 1] == c3 {
        (t3, i + 2)
    } else {
        (t0, i + 1)
    }
}

/// The single token starting at character index `i` of `s`: its view and the
/// index just past it, or the kind of lexical error at `i`.
///
/// This is the whole lexical grammar in one function. Multi-character
/// operators munch maximally with one character of lookahead; identifier,
/// number and whitespace runs munch maximally; a string literal runs to the
/// next `"`.
pub open spec fn lex_one(s: Seq<char>, i: int) -> Result<(TokView, int), LexErrorKind>
    recommends
        0 <= i < s.len(),
{
    let c = s[i];
    if c == '(' {
        Ok((TokView::OpenDelim(DelimToken::Paren), i + 1))
    } else if c == ')' {
        Ok((TokView::CloseDelim(DelimToken::Paren), i + 1))
    } else if c == '{' {
        Ok((TokView::OpenDelim(DelimToken::Brace), i + 1))
    } else if c == '}' {
        Ok((TokView::CloseDelim(DelimToken::Brace), i + 1))
    } else if c == '[' {
        Ok((TokView::OpenDelim(DelimToken::Bracket), i + 1))
    } else if c == ']' {
        Ok((TokView::CloseDelim(DelimToken::Bracket), i + 1))
    } else if c == ',' {
        Ok((TokView::Comma, i + 1))
    } else if c == '.' {
        Ok((TokView::Dot, i + 1))
    } else if c == ';' {
        Ok((TokView::Semicolon, i + 1))
    } else if c == ':' {
        Ok(op2(s, i, '=', TokView::ColonEquals, TokView::Colon))
    } else if c == '+' {
        Ok(op3(s, i, '+', TokView::Increment, '=', TokView::PlusEquals, TokView::Plus))
    } else if c == '-' {
        Ok(op3(s, i, '-', TokView::Decrement, '=', TokView::MinusEquals, TokView::Minus))
    } else if c == '|' {
        Ok(op3(s, i, '|', TokView::PipePipe, '=', TokView::PipeEquals, TokView::Pipe))
    } else if c == '&' {
        Ok(op4(
            s,
            i,
            '&',
            TokView::AmpAmp,
            '=',
            TokView::AmpEquals,
            '^',
            TokView::AmpCaret,
            TokView::Amp,
        ))
    } else if c == '*' {
        Ok(op2(s, i, '=', TokView::StarEquals, TokView::Star))
    } else if c == '/' {
        Ok(op2(s, i, '=', TokView::SlashEquals, TokView::Slash))
    } else if c == '%' {
        Ok(op2(s, i, '=', TokView::PercentEquals, TokView::Percent))
    } else if c == '^' {
        Ok(op2(s, i, '=', TokView::CaretEquals, TokView::Caret))
    } else if c == '=' {
        Ok(op2(s, i, '=', TokView::EqualsEquals, TokView::Equals))
    } else if c == '!' {
        Ok(op2(s, i, '=', TokView::NotEquals, TokView::Not))
    } else if c == '<' {
        Ok(op4(
            s,
            i,
            '<',
            TokView::Shl,
            '=',
            TokView::LtEquals,
            '-',
            TokView::LeftArrow,
            TokView::Lt,
        ))
    } else if c == '>' {
        Ok(op3(s, i, '>', TokView::Shr, '=', TokView::GtEquals, TokView::Gt))
    } else if c == '"' {
        match scan_until(s, i + 1, '"') {
            Some(k) => Ok((TokView::Literal(LitView::Str(s.subrange(i + 1, k))), k + 1)),
            None => Err(LexErrorKind::UnterminatedString),
        }
    } else if is_digit(c) {
        let n = run_len(s, i, digit_pred());
        Ok((TokView::Literal(LitView::Int(s.subrange(i, i + n))), i + n))
    } else if is_ident_start(c) {
        let n = run_len(s, i, ident_continue_pred());
        Ok((ident_or_keyword(s.subrange(i, i + n)), i + n))
    } else if is_white(c) {
        let n = run_len(s, i, white_pred());
        Ok((TokView::Whitespace, i + n))
    } else {
        Err(LexErrorKind::UnexpectedChar(c))
    }
}

/// The whole token sequence of `s` from index `i` on: each token's view with
/// its starting index, or the first error's kind with its index.
pub open spec fn spec_tokenize(s: Seq<char>, i: int) -> Result<
    Seq<(TokView, int)>,
    (LexErrorKind, int),
>
    decreases s.len() - i,
{
    if i < 0 || i >= s.len() {
        Ok(Seq::empty())
    } else {
        match lex_one(s, i) {
            Err(k) => Err((k, i)),
            Ok((t, j)) => if i < j <= s.len() {
                match spec_tokenize(s, j) {
                    Ok(rest) => Ok(Seq::empty().push((t, i)) + rest),
                    Err(e) => Err(e),
                }
            } else {
                // `lex_one` always advances (see `lemma_lex_one_advances`);
                // the branch only closes the termination argument.
                Err((LexErrorKind::UnexpectedChar(s[i]), i))
            },
        }
    }
}

// === Facts about the specification-level tokenizer ===

/// A run is exactly characterized by its contents: if everything in `[i, j)`
/// satisfies `p` and `j` is the end of the text or fails `p`, the run from
/// `i` has length `j - i`.
pub proof fn lemma_run_len(s: Seq<char>, i: int, j: int, p: spec_fn(char) -> bool)
    requires
        0 <= i <= j <= s.len(),
        forall|m: int| i <= m < j ==> p(s[m]),
        j == s.len() || !p(s[j]),
    ensures
        run_len(s, i, p) == j - i,
    decreases j - i,
{
    if i < j {
        lemma_run_len(s, i + 1, j, p);
    }
}

pub proof fn lemma_run_len_bound(s: Seq<char>, i: int, p: spec_fn(char) -> bool)
    requires
        0 <= i <= s.len(),
    ensures
        0 <= run_len(s, i, p) <= s.len() - i,
        forall|m: int| i <= m < i + run_len(s, i, p) ==> p(s[m]),
        i + run_len(s, i, p) == s.len() || !p(s[i + run_len(s, i, p)]),
    decreases s.len() - i,
{
    if i < s.len() && p(s[i]) {
        lemma_run_len_bound(s, i + 1, p);
    }
}

/// The scan for `q` is exactly characterized: it finds the first occurrence.
pub proof fn lemma_scan_until(s: Seq<char>, i: int, k: int, q: char)
    requires
        0 <= i <= k <= s.len(),
        forall|m: int| i <= m < k ==> s[m] != q,
        k == s.len() || s[k] == q,
    ensures
        scan_until(s, i, q) == if k == s.len() {
            None::<int>
        } else {
            Some(k)
        },
    decreases k - i,
{
    if i < k {
        lemma_scan_until(s, i + 1, k, q);
    }
}

pub proof fn lemma_scan_until_bound(s: Seq<char>, i: int, q: char)
    requires
        0 <= i <= s.len(),
    ensures
        match scan_until(s, i, q) {
            Some(k) => i <= k < s.len() && s[k] == q && forall|m: int| i <= m < k ==> s[m] != q,
            None => forall|m: int| i <= m < s.len() ==> s[m] != q,
        },
    decreases s.len() - i,
{
    if i < s.len() && s[i] != q {
        lemma_scan_until_bound(s, i + 1, q);
    }
}

/// A successfully lexed token always spans at least one character and stays
/// within the text.
pub proof fn lemma_lex_one_advances(s: Seq<char>, i: int)
    requires
        0 <= i < s.len(),
    ensures
        match lex_one(s, i) {
            Ok((t, j)) => i < j <= s.len(),
            Err(_) => true,
        },
{
    let c = s[i];
    if c == '"' {
        lemma_scan_until_bound(s, i + 1, '"');
    } else if !(c == '(' || c == ')' || c == '{' || c == '}' || c == '[' || c == ']' || c == ','
        || c == '.' || c == ';' || c == ':' || c == '+' || c == '-' || c == '|' || c == '&'
        || c == '*' || c == '/' || c == '%' || c == '^' || c == '=' || c == '!' || c == '<'
        || c == '>') {
        if is_digit(c) {
            lemma_run_len_bound(s, i, digit_pred());
        } else if is_ident_start(c) {
            lemma_run_len_bound(s, i, ident_continue_pred());
        } else if is_white(c) {
            lemma_run_len_bound(s, i, white_pred());
        }
    }
}

/// One unfolding step of [`spec_tokenize`], with the dead guard removed.
pub proof fn lemma_spec_tokenize_step(s: Seq<char>, i: int)
    requires
        0 <= i < s.len(),
    ensures
        match lex_one(s, i) {
            Err(k) => spec_tokenize(s, i) == Err::<Seq<(TokView, int)>, _>((k, i)),
            Ok((t, j)) => spec_tokenize(s, i) == match spec_tokenize(s, j) {
                Ok(rest) => Ok::<_, (LexErrorKind, int)>(Seq::empty().push((t, i)) + rest),
                Err(e) => Err(e),
            },
        },
{
    lemma_lex_one_advances(s, i);
}

// === The executable lexer ===

/// The byte length of `s`.
///
/// Relies on `str::len`: a `str` is UTF-8 text, so its byte length is the sum
/// of the UTF-8 lengths of its characters, and it never exceeds
/// `isize::MAX`, so it is strictly below `usize::MAX`.
#[verifier::external_body]
fn utf8_total_len(s: &str) -> (n: usize)
    ensures
        n as int == byte_offset_at(s@, s@.len() as int),
        n < usize::MAX,
{
    s.len()
}

/// Whether two string slices hold the same characters.
fn str_eq_chars(a: &str, b: &str) -> (r: bool)
    ensures
        r == (a@ == b@),
{
    let na = a.unicode_len();
    let nb = b.unicode_len();
    if na != nb {
        return false;
    }
    let mut i: usize = 0;
    while i < na
        invariant
            na == a@.len(),
            na == b@.len(),
            i <= na,
            forall|m: int| 0 <= m < i ==> a@[m] == b@[m],
        decreases na - i,
    {
        if a.get_char(i) != b.get_char(i) {
            return false;
        }
        i = i + 1;
    }
    proof {
        assert(a@ =~= b@);
    }
    true
}

/// The keyword that `txt` spells, if any: a lookup against the fixed table of
/// the 25 reserved words.
fn lookup_keyword(txt: &str) -> (r: Option<Keyword>)
    ensures
        r == keyword_of(txt@),
{
    if str_eq_chars(txt, "break") {
        Some(Keyword::Break)
    } else if str_eq_chars(txt, "case") {
        Some(Keyword::Case)
    } else if str_eq_chars(txt, "chan") {
        Some(Keyword::Chan)
    } else if str_eq_chars(txt, "const") {
        Some(Keyword::Const)
    } else if str_eq_chars(txt, "continue") {
        Some(Keyword::Continue)
    } else if str_eq_chars(txt, "default") {
        Some(Keyword::Default)
    } else if str_eq_chars(txt, "defer") {
        Some(Keyword::Defer)
    } else if str_eq_chars(txt, "else") {
        Some(Keyword::Else)
    } else if str_eq_chars(txt, "fallthrough") {
        Some(Keyword::Fallthrough)
    } else if str_eq_chars(txt, "for") {
        Some(Keyword::For)
    } else if str_eq_chars(txt, "func") {
        Some(Keyword::Func)
    } else if str_eq_chars(txt, "go") {
        Some(Keyword::Go)
    } else if str_eq_chars(txt, "goto") {
        Some(Keyword::Goto)
    } else if str_eq_chars(txt, "if") {
        Some(Keyword::If)
    } else if str_eq_chars(txt, "import") {
        Some(Keyword::Import)
    } else if str_eq_chars(txt, "interface") {
        Some(Keyword::Interface)
    } else if str_eq_chars(txt, "map") {
        Some(Keyword::MapKw)
    } else if str_eq_chars(txt, "package") {
        Some(Keyword::Package)
    } else if str_eq_chars(txt, "range") {
        Some(Keyword::Range)
    } else if str_eq_chars(txt, "return") {
        Some(Keyword::Return)
    } else if str_eq_chars(txt, "select") {
        Some(Keyword::Select)
    } else if str_eq_chars(txt, "struct") {
        Some(Keyword::Struct)
    } else if str_eq_chars(txt, "switch") {
        Some(Keyword::Switch)
    } else if str_eq_chars(txt, "type") {
        Some(Keyword::Type)
    } else if str_eq_chars(txt, "var") {
        Some(Keyword::Var)
    } else {
        None
    }
}

/// An exact ASCII-digit test on a character.
fn digit_check(c: char) -> (r: bool)
    ensures
        r == is_digit(c),
{
    let u = c as u32;
    48 <= u && u <= 57
}

/// A pull-based lexer over a source string: a character cursor that tracks
/// the line, column and byte offset of the character it stands on.
pub struct Lexer<'src> {
    /// The source string.
    src: &'src str,
    /// The number of characters in `src`.
    len: usize,
    /// Index of the current character, counted in characters.
    pos: usize,
    /// 1-based line of the current character.
    line: usize,
    /// 1-based column of the current character.
    col: usize,
    /// Byte offset of the current character.
    offset: usize,
}

impl<'src> Lexer<'src> {
    /// The characters of the source this lexer reads.
    pub closed spec fn src_view(self) -> Seq<char> {
        self.src@
    }

    /// The character index the lexer stands on.
    pub closed spec fn at(self) -> int {
        self.pos as int
    }

    /// The lexer's cursor is consistent: the cached length is the source
    /// length, the cursor is inside the text or just past it, and the
    /// position fields are the true line, column and byte offset.
    pub closed spec fn wf(self) -> bool {
        &&& self.len == self.src@.len()
        &&& self.pos <= self.len
        &&& self.line as int == line_at(self.src@, self.pos as int)
        &&& self.col as int == col_at(self.src@, self.pos as int)
        &&& self.offset as int == byte_offset_at(self.src@, self.pos as int)
        &&& byte_offset_at(self.src@, self.src@.len() as int) < usize::MAX
    }

    /// A fresh lexer standing on the first character of `s`.
    pub fn new(s: &str) -> (l: Lexer<'_>)
        ensures
            l.wf(),
            l.src_view() == s@,
            l.at() == 0,
    {
        let len = s.unicode_len();
        let total = utf8_total_len(s);
        Lexer { src: s, len, pos: 0, line: 1, col: 1, offset: 0 }
    }

    /// The position of the current character.
    fn position(&self) -> (p: Position)
        requires
            self.wf(),
        ensures
            pos_matches(self.src_view(), self.at(), p),
    {
        Position { line: self.line, col: self.col, offset: self.offset }
    }

    /// Advance past one character, keeping line, column and byte offset true.
    fn bump(&mut self)
        requires
            old(self).wf(),
            old(self).at() < old(self).src_view().len(),
        ensures
            final(self).wf(),
            final(self).src_view() == old(self).src_view(),
            final(self).at() == old(self).at() + 1,
    {
        proof {
            lemma_line_col_bounds(self.src@, self.pos as int);
            lemma_byte_offset_at_least(self.src@, self.src@.len() as int);
            lemma_byte_offset_mono(self.src@, self.pos as int + 1, self.src@.len() as int);
        }
        let c = self.src.get_char(self.pos);
        if c == '\n' {
            self.line = self.line + 1;
            self.col = 1;
        } else {
            self.col = self.col + 1;
        }
        self.offset = self.offset + char_utf8_len(c);
        self.pos = self.pos + 1;
    }

    /// Take a one-character operator that a following `c1` turns into `k1`.
    fn take_op2(&mut self, c1: char, k1: TokenKind, k0: TokenKind) -> (k: TokenKind)
        requires
            old(self).wf(),
            old(self).at() < old(self).src_view().len(),
        ensures
            final(self).wf(),
            final(self).src_view() == old(self).src_view(),
            (k@, final(self).at()) == op2(old(self).src_view(), old(self).at(), c1, k1@, k0@),
    {
        self.bump();
        if self.pos < self.len {
            let c = self.src.get_char(self.pos);
            if c == c1 {
                self.bump();
                return k1;
            }
        }
        k0
    }

    /// Take a one-character operator with two possible continuations.
    fn take_op3(&mut self, c1: char, k1: TokenKind, c2: char, k2: TokenKind, k0: TokenKind) -> (k:
        TokenKind)
        requires
            old(self).wf(),
            old(self).at() < old(self).src_view().len(),
        ensures
            final(self).wf(),
            final(self).src_view() == old(self).src_view(),
            (k@, final(self).at()) == op3(
                old(self).src_view(),
                old(self).at(),
                c1,
                k1@,
                c2,
                k2@,
                k0@,
            ),
    {
        self.bump();
        if self.pos < self.len {
            let c = self.src.get_char(self.pos);
            if c == c1 {
                self.bump();
                return k1;
            }
            if c == c2 {
                self.bump();
                return k2;
            }
        }
        k0
    }

    /// Take a one-character operator with three possible continuations.
    fn take_op4(
        &mut self,
        c1: char,
        k1: TokenKind,
        c2: char,
        k2: TokenKind,
        c3: char,
        k3: TokenKind,
        k0: TokenKind,
    ) -> (k: TokenKind)
        requires
            old(self).wf(),
            old(self).at() < old(self).src_view().len(),
        ensures
            final(self).wf(),
            final(self).src_view() == old(self).src_view(),
            (k@, final(self).at()) == op4(
                old(self).src_view(),
                old(self).at(),
                c1,
                k1@,
                c2,
                k2@,
                c3,
                k3@,
                k0@,
            ),
    {
        self.bump();
        if self.pos < self.len {
            let c = self.src.get_char(self.pos);
            if c == c1 {
                self.bump();
                return k1;
            }
            if c == c2 {
                self.bump();
                return k2;
            }
            if c == c3 {
                self.bump();
                return k3;
            }
        }
        k0
    }

    /// Advance past the maximal identifier run starting at the cursor and
    /// return the index just past it.
    fn scan_identifier(&mut self) -> (j: usize)
        requires
            old(self).wf(),
            old(self).at() < old(self).src_view().len(),
            is_ident_continue(old(self).src_view()[old(self).at()]),
        ensures
            final(self).wf(),
            final(self).src_view() == old(self).src_view(),
            final(self).at() == j as int,
            old(self).at() <= j as int <= old(self).src_view().len(),
            j as int == old(self).at() + run_len(
                old(self).src_view(),
                old(self).at(),
                ident_continue_pred(),
            ),
    {
        let ghost s = self.src@;
        let ghost start = self.pos as int;
        while self.pos < self.len && can_continue_identifier(self.src.get_char(self.pos))
            invariant
                self.wf(),
                self.src@ == s,
                start <= self.pos as int <= s.len(),
                forall|m: int| start <= m < self.pos as int ==> ident_continue_pred()(s[m]),
            decreases s.len() - self.pos as int,
        {
            self.bump();
        }
        proof {
            lemma_run_len(s, start, self.pos as int, ident_continue_pred());
        }
        self.pos
    }

    /// Return the next token, if any.
    ///
    /// Returns `Ok(None)` only at true end of input; otherwise exactly one
    /// token, classified and delimited exactly as [`lex_one`] says, carrying
    /// the position of its first character — or the lexical error that
    /// [`lex_one`] reports, positioned at the character that began the failed
    /// token.
    ///
    /// The classification never depends on previously emitted tokens, so
    /// syntactically invalid sequences such as `, , ,` tokenize successfully.
    #[verifier::rlimit(40)]
    pub fn next(&mut self) -> (r: Result<Option<Token>, LexError>)
        requires
            old(self).wf(),
        ensures
            final(self).wf(),
            final(self).src_view() == old(self).src_view(),
            match r {
                Ok(None) => old(self).at() == old(self).src_view().len() && final(self).at()
                    == old(self).at(),
                Ok(Some(t)) => {
                    &&& old(self).at() < old(self).src_view().len()
                    &&& lex_one(old(self).src_view(), old(self).at()) == Ok::<
                        _,
                        LexErrorKind,
                    >((t.kind@, final(self).at()))
                    &&& pos_matches(old(self).src_view(), old(self).at(), t.pos)
                },
                Err(e) => {
                    &&& old(self).at() < old(self).src_view().len()
                    &&& lex_one(old(self).src_view(), old(self).at()) == Err::<
                        (TokView, int),
                        _,
                    >(e.kind)
                    &&& pos_matches(old(self).src_view(), old(self).at(), e.pos)
                },
            },
    {
        if self.pos >= self.len {
            return Ok(None);
        }
        let ghost s = self.src@;
        let ghost i = self.pos as int;
        let tok_pos = self.position();
        let c = self.src.get_char(self.pos);
        let kind: TokenKind;
        if c == '(' {
            self.bump();
            kind = TokenKind::OpenDelim(DelimToken::Paren);
        } else if c == ')' {
            self.bump();
            kind = TokenKind::CloseDelim(DelimToken::Paren);
        } else if c == '{' {
            self.bump();
            kind = TokenKind::OpenDelim(DelimToken::Brace);
        } else if c == '}' {
            self.bump();
            kind = TokenKind::CloseDelim(DelimToken::Brace);
        } else if c == '[' {
            self.bump();
            kind = TokenKind::OpenDelim(DelimToken::Bracket);
        } else if c == ']' {
            self.bump();
            kind = TokenKind::CloseDelim(DelimToken::Bracket);
        } else if c == ',' {
            self.bump();
            kind = TokenKind::Comma;
        } else if c == '.' {
            self.bump();
            kind = TokenKind::Dot;
        } else if c == ';' {
            self.bump();
            kind = TokenKind::Semicolon;
        } else if c == ':' {
            kind = self.take_op2('=', TokenKind::ColonEquals, TokenKind::Colon);
        } else if c == '+' {
            kind = self.take_op3('+', TokenKind::Increment, '=', TokenKind::PlusEquals, TokenKind::Plus);
        } else if c == '-' {
            kind = self.take_op3('-', TokenKind::Decrement, '=', TokenKind::MinusEquals, TokenKind::Minus);
        } else if c == '|' {
            kind = self.take_op3('|', TokenKind::PipePipe, '=', TokenKind::PipeEquals, TokenKind::Pipe);
        } else if c == '&' {
            kind = self.take_op4(
                '&',
                TokenKind::AmpAmp,
                '=',
                TokenKind::AmpEquals,
                '^',
                TokenKind::AmpCaret,
                TokenKind::Amp,
            );
        } else if c == '*' {
            kind = self.take_op2('=', TokenKind::StarEquals, TokenKind::Star);
        } else if c == '/' {
            kind = self.take_op2('=', TokenKind::SlashEquals, TokenKind::Slash);
        } else if c == '%' {
            kind = self.take_op2('=', TokenKind::PercentEquals, TokenKind::Percent);
        } else if c == '^' {
            kind = self.take_op2('=', TokenKind::CaretEquals, TokenKind::Caret);
        } else if c == '=' {
            kind = self.take_op2('=', TokenKind::EqualsEquals, TokenKind::Equals);
        } else if c == '!' {
            kind = self.take_op2('=', TokenKind::NotEquals, TokenKind::Not);
        } else if c == '<' {
            kind = self.take_op4(
                '<',
                TokenKind::Shl,
                '=',
                TokenKind::LtEquals,
                '-',
                TokenKind::LeftArrow,
                TokenKind::Lt,
            );
        } else if c == '>' {
            kind = self.take_op3('>', TokenKind::Shr, '=', TokenKind::GtEquals, TokenKind::Gt);
        } else if c == '"' {
            // A string literal: everything up to the next quote is its body.
            self.bump();
            let start = self.pos;
            while self.pos < self.len && self.src.get_char(self.pos) != '"'
                invariant
                    self.wf(),
                    self.src@ == s,
                    start as int <= self.pos as int <= s.len(),
                    forall|m: int| start as int <= m < self.pos as int ==> s[m] != '"',
                decreases s.len() - self.pos as int,
            {
                self.bump();
            }
            if self.pos >= self.len {
                proof {
                    lemma_scan_until(s, start as int, s.len() as int, '"');
                }
                return Err(LexError { kind: LexErrorKind::UnterminatedString, pos: tok_pos });
            }
            proof {
                lemma_scan_until(s, start as int, self.pos as int, '"');
            }
            let txt = self.src.substring_char(start, self.pos);
            self.bump();
            kind = TokenKind::Literal(Literal::Str(String::from_str(txt)));
        } else if digit_check(c) {
            // An integer literal: a maximal digit run.
            let start = self.pos;
            while self.pos < self.len && digit_check(self.src.get_char(self.pos))
                invariant
                    self.wf(),
                    self.src@ == s,
                    start as int <= self.pos as int <= s.len(),
                    forall|m: int| start as int <= m < self.pos as int ==> digit_pred()(s[m]),
                decreases s.len() - self.pos as int,
            {
                self.bump();
            }
            proof {
                lemma_run_len(s, start as int, self.pos as int, digit_pred());
            }
            let txt = self.src.substring_char(start, self.pos);
            kind = TokenKind::Literal(Literal::Int(String::from_str(txt)));
        } else if can_start_identifier(c) {
            // An identifier run, checked against the keyword table.
            let start = self.pos;
            let j = self.scan_identifier();
            let txt = self.src.substring_char(start, j);
            kind = match lookup_keyword(txt) {
                Some(k) => TokenKind::Keyword(k),
                None => TokenKind::Ident(String::from_str(txt)),
            };
        } else if char_is_whitespace(c) {
            // A maximal whitespace run is one token, newlines included.
            while self.pos < self.len && char_is_whitespace(self.src.get_char(self.pos))
                invariant
                    self.wf(),
                    self.src@ == s,
                    i <= self.pos as int <= s.len(),
                    forall|m: int| i <= m < self.pos as int ==> white_pred()(s[m]),
                decreases s.len() - self.pos as int,
            {
                self.bump();
            }
            proof {
                lemma_run_len(s, i, self.pos as int, white_pred());
            }
            kind = TokenKind::Whitespace;
        } else {
            return Err(LexError { kind: LexErrorKind::UnexpectedChar(c), pos: tok_pos });
        }
        Ok(Some(Token { kind, pos: tok_pos }))
    }
}

/// The kinds alone of a specification-level token sequence, the starting
/// indices dropped.
pub open spec fn token_kinds(sts: Seq<(TokView, int)>) -> Seq<TokView> {
    sts.map_values(|p: (TokView, int)| p.0)
}

/// Sticks a finished prefix of tokens onto whatever the rest of the text
/// tokenizes to.
pub open spec fn tokenize_combine(
    done: Seq<(TokView, int)>,
    rest: Result<Seq<(TokView, int)>, (LexErrorKind, int)>,
) -> Result<Seq<(TokView, int)>, (LexErrorKind, int)> {
    match rest {
        Ok(r) => Ok(done + r),
        Err(e) => Err(e),
    }
}

/// `toks` is the executable form of the specification-level token sequence
/// `sts` of the text `s`: same kinds in the same order, each with the true
/// position of its starting index.
pub open spec fn toks_match(s: Seq<char>, sts: Seq<(TokView, int)>, toks: Seq<Token>) -> bool {
    &&& toks.len() == sts.len()
    &&& forall|j: int| 0 <= j < sts.len() ==> (#[trigger] toks[j].kind)@ == sts[j].0
    &&& forall|j: int| 0 <= j < sts.len() ==> pos_matches(s, sts[j].1, (#[trigger] toks[j]).pos)
}

/// Collect all the tokens of `s`, or the first lexical error.
///
/// The result is exactly what the specification-level tokenizer says: on
/// success the token kinds and positions of [`spec_tokenize`], on failure its
/// first error, positioned at the character that began the failed token.
pub fn tokenize(s: &str) -> (r: Result<Vec<Token>, LexError>)
    ensures
        match r {
            Ok(toks) => match spec_tokenize(s@, 0) {
                Ok(sts) => toks_match(s@, sts, toks@),
                Err(_) => false,
            },
            Err(e) => match spec_tokenize(s@, 0) {
                Ok(_) => false,
                Err((k, i)) => e.kind == k && pos_matches(s@, i, e.pos),
            },
        },
{
    let mut lx = Lexer::new(s);
    let mut toks: Vec<Token> = Vec::new();
    let ghost mut done: Seq<(TokView, int)> = Seq::empty();
    proof {
        if spec_tokenize(s@, 0) is Ok {
            assert(Seq::empty() + spec_tokenize(s@, 0)->Ok_0 =~= spec_tokenize(s@, 0)->Ok_0);
        }
    }
    loop
        invariant
            lx.wf(),
            lx.src_view() == s@,
            0 <= lx.at() <= s@.len(),
            toks_match(s@, done, toks@),
            spec_tokenize(s@, 0) == tokenize_combine(done, spec_tokenize(s@, lx.at())),
        decreases s@.len() - lx.at(),
    {
        let ghost i = lx.at();
        let r = lx.next();
        match r {
            Ok(None) => {
                proof {
                    assert(done + Seq::<(TokView, int)>::empty() =~= done);
                }
                return Ok(toks);
            },
            Ok(Some(t)) => {
                proof {
                    lemma_spec_tokenize_step(s@, i);
                    lemma_lex_one_advances(s@, i);
                    if spec_tokenize(s@, lx.at()) is Ok {
                        assert(done + (Seq::empty().push((t.kind@, i)) + spec_tokenize(
                            s@,
                            lx.at(),
                        )->Ok_0) =~= done.push((t.kind@, i)) + spec_tokenize(s@, lx.at())->Ok_0);
                    }
                    done = done.push((t.kind@, i));
                }
                toks.push(t);
            },
            Err(e) => {
                proof {
                    lemma_spec_tokenize_step(s@, i);
                }
                return Err(e);
            },
        }
    }
}

/// The position just past the last character of `s`: where a diagnostic about
/// unexpected end of input points.
pub fn end_position(s: &str) -> (p: Position)
    ensures
        pos_matches(s@, s@.len() as int, p),
{
    let mut lx = Lexer::new(s);
    while lx.pos < lx.len
        invariant
            lx.wf(),
            lx.src_view() == s@,
        decreases s@.len() - lx.at(),
    {
        lx.bump();
    }
    lx.position()
}

/// The character whose UTF-8 encoding begins at byte offset `byte` of `s`.
///
/// The offset must be a character boundary inside the text — the condition
/// under which the byte-indexed access this stands for is defined at all.
/// The cursor decodes from the front, summing UTF-8 lengths, rather than
/// re-slicing the buffer at a byte offset.
pub fn char_at(s: &str, byte: usize) -> (c: char)
    requires
        exists|q: int| 0 <= q < s@.len() && #[trigger] byte_offset_at(s@, q) == byte as int,
    ensures
        forall|q: int|
            0 <= q < s@.len() && #[trigger] byte_offset_at(s@, q) == byte as int ==> c == s@[q],
{
    let ghost qw = choose|q: int|
        0 <= q < s@.len() && #[trigger] byte_offset_at(s@, q) == byte as int;
    let len = s.unicode_len();
    let mut j: usize = 0;
    let mut off: usize = 0;
    while off < byte
        invariant
            0 <= j as int <= qw < s@.len(),
            s@.len() <= usize::MAX,
            off as int == byte_offset_at(s@, j as int),
            off <= byte,
            byte_offset_at(s@, qw) == byte as int,
        decreases byte - off,
    {
        proof {
            crate::pos::lemma_byte_offset_mono(s@, j as int + 1, qw);
        }
        let c0 = s.get_char(j);
        let d = char_utf8_len(c0);
        off = off + d;
        j = j + 1;
    }
    proof {
        if (j as int) < qw {
            crate::pos::lemma_byte_offset_strict_mono(s@, j as int, qw);
        }
    }
    let c = s.get_char(j);
    proof {
        assert forall|q: int|
            0 <= q < s@.len() && byte_offset_at(s@, q) == byte as int implies c == s@[q] by {
            if q < j as int {
                crate::pos::lemma_byte_offset_strict_mono(s@, q, j as int);
            }
            if q > j as int {
                crate::pos::lemma_byte_offset_strict_mono(s@, j as int, q);
            }
        }
    }
    c
}


// === Laws ===

/// The spelling of a keyword.
pub open spec fn keyword_text(k: Keyword) -> Seq<char> {
    match k {
        Keyword::Break => seq!['b', 'r', 'e', 'a', 'k'],
        Keyword::Case => seq!['c', 'a', 's', 'e'],
        Keyword::Chan => seq!['c', 'h', 'a', 'n'],
        Keyword::Const => seq!['c', 'o', 'n', 's', 't'],
        Keyword::Continue => seq!['c', 'o', 'n', 't', 'i', 'n', 'u', 'e'],
        Keyword::Default => seq!['d', 'e', 'f', 'a', 'u', 'l', 't'],
        Keyword::Defer => seq!['d', 'e', 'f', 'e', 'r'],
        Keyword::Else => seq!['e', 'l', 's', 'e'],
        Keyword::Fallthrough => seq!['f', 'a', 'l', 'l', 't', 'h', 'r', 'o', 'u', 'g', 'h'],
        Keyword::For => seq!['f', 'o', 'r'],
        Keyword::Func => seq!['f', 'u', 'n', 'c'],
        Keyword::Go => seq!['g', 'o'],
        Keyword::Goto => seq!['g', 'o', 't', 'o'],
        Keyword::If => seq!['i', 'f'],
        Keyword::Import => seq!['i', 'm', 'p', 'o', 'r', 't'],
        Keyword::Interface => seq!['i', 'n', 't', 'e', 'r', 'f', 'a', 'c', 'e'],
        Keyword::MapKw => seq!['m', 'a', 'p'],
        Keyword::Package => seq!['p', 'a', 'c', 'k', 'a', 'g', 'e'],
        Keyword::Range => seq!['r', 'a', 'n', 'g', 'e'],
        Keyword::Return => seq!['r', 'e', 't', 'u', 'r', 'n'],
        Keyword::Select => seq!['s', 'e', 'l', 'e', 'c', 't'],
        Keyword::Struct => seq!['s', 't', 'r', 'u', 'c', 't'],
        Keyword::Switch => seq!['s', 'w', 'i', 't', 'c', 'h'],
        Keyword::Type => seq!['t', 'y', 'p', 'e'],
        Keyword::Var => seq!['v', 'a', 'r'],
    }
}

/// The canonical minimal source text of a token kind: the shortest text that
/// tokenizes to exactly that token.
pub open spec fn canonical_text(t: TokView) -> Seq<char> {
    match t {
        TokView::OpenDelim(DelimToken::Paren) => seq!['('],
        TokView::CloseDelim(DelimToken::Paren) => seq![')'],
        TokView::OpenDelim(DelimToken::Brace) => seq!['{'],
        TokView::CloseDelim(DelimToken::Brace) => seq!['}'],
        TokView::OpenDelim(DelimToken::Bracket) => seq!['['],
        TokView::CloseDelim(DelimToken::Bracket) => seq![']'],
        TokView::Comma => seq![','],
        TokView::Dot => seq!['.'],
        TokView::Semicolon => seq![';'],
        TokView::Colon => seq![':'],
        TokView::ColonEquals => seq![':', '='],
        TokView::Plus => seq!['+'],
        TokView::Increment => seq!['+', '+'],
        TokView::PlusEquals => seq!['+', '='],
        TokView::Minus => seq!['-'],
        TokView::Decrement => seq!['-', '-'],
        TokView::MinusEquals => seq!['-', '='],
        TokView::Star => seq!['*'],
        TokView::StarEquals => seq!['*', '='],
        TokView::Slash => seq!['/'],
        TokView::SlashEquals => seq!['/', '='],
        TokView::Percent => seq!['%'],
        TokView::PercentEquals => seq!['%', '='],
        TokView::Amp => seq!['&'],
        TokView::AmpAmp => seq!['&', '&'],
        TokView::AmpEquals => seq!['&', '='],
        TokView::AmpCaret => seq!['&', '^'],
        TokView::Pipe => seq!['|'],
        TokView::PipePipe => seq!['|', '|'],
        TokView::PipeEquals => seq!['|', '='],
        TokView::Caret => seq!['^'],
        TokView::CaretEquals => seq!['^', '='],
        TokView::Lt => seq!['<'],
        TokView::LtEquals => seq!['<', '='],
        TokView::Shl => seq!['<', '<'],
        TokView::LeftArrow => seq!['<', '-'],
        TokView::Gt => seq!['>'],
        TokView::GtEquals => seq!['>', '='],
        TokView::Shr => seq!['>', '>'],
        TokView::Equals => seq!['='],
        TokView::EqualsEquals => seq!['=', '='],
        TokView::Not => seq!['!'],
        TokView::NotEquals => seq!['!', '='],
        TokView::Keyword(k) => keyword_text(k),
        TokView::Ident(s) => s,
        TokView::Literal(LitView::Str(s)) => seq!['"'] + s + seq!['"'],
        TokView::Literal(LitView::Int(s)) => s,
        TokView::Whitespace => seq![' '],
    }
}

/// The payload of a token is spellable: identifier text really is an
/// identifier run that is no keyword, a string body holds no quote, an
/// integer is a digit run. Payload-free kinds are always spellable.
pub open spec fn canonical_wf(t: TokView) -> bool {
    match t {
        TokView::Ident(s) => s.len() >= 1 && is_ident_start(s[0]) && (forall|m: int|
            0 <= m < s.len() ==> is_ident_continue(#[trigger] s[m])) && keyword_of(s) is None,
        TokView::Literal(LitView::Str(s)) => forall|m: int| 0 <= m < s.len() ==> s[m] != '"',
        TokView::Literal(LitView::Int(s)) => s.len() >= 1 && (forall|m: int|
            0 <= m < s.len() ==> is_digit(#[trigger] s[m])),
        _ => true,
    }
}

/// An identifier run that spans the whole text is lexed as one word: the
/// keyword it spells, or a plain identifier.
proof fn lemma_word_token(s: Seq<char>)
    requires
        s.len() >= 1,
        is_ident_start(s[0]),
        forall|m: int| 0 <= m < s.len() ==> is_ident_continue(#[trigger] s[m]),
    ensures
        lex_one(s, 0) == Ok::<_, LexErrorKind>((ident_or_keyword(s), s.len() as int)),
{
    assert forall|m: int| 0 <= m < s.len() implies ident_continue_pred()(s[m]) by {
        assert(is_ident_continue(s[m]));
    }
    lemma_run_len(s, 0, s.len() as int, ident_continue_pred());
    assert(s.subrange(0, s.len() as int) =~= s);
}

/// A digit run that spans the whole text is lexed as one integer literal.
proof fn lemma_int_token(s: Seq<char>)
    requires
        s.len() >= 1,
        forall|m: int| 0 <= m < s.len() ==> is_digit(#[trigger] s[m]),
    ensures
        lex_one(s, 0) == Ok::<_, LexErrorKind>((
            TokView::Literal(LitView::Int(s)),
            s.len() as int,
        )),
{
    assert forall|m: int| 0 <= m < s.len() implies digit_pred()(s[m]) by {
        assert(is_digit(s[m]));
    }
    lemma_run_len(s, 0, s.len() as int, digit_pred());
    assert(s.subrange(0, s.len() as int) =~= s);
}

/// The canonical text of a spellable token is lexed as exactly that token,
/// spanning the whole text.
#[verifier::rlimit(40)]
proof fn lemma_lex_canonical(t: TokView)
    requires
        canonical_wf(t),
    ensures
        lex_one(canonical_text(t), 0) == Ok::<_, LexErrorKind>((
            t,
            canonical_text(t).len() as int,
        )),
{
    let text = canonical_text(t);
    reveal_strlit("break");
    reveal_strlit("case");
    reveal_strlit("chan");
    reveal_strlit("const");
    reveal_strlit("continue");
    reveal_strlit("default");
    reveal_strlit("defer");
    reveal_strlit("else");
    reveal_strlit("fallthrough");
    reveal_strlit("for");
    reveal_strlit("func");
    reveal_strlit("go");
    reveal_strlit("goto");
    reveal_strlit("if");
    reveal_strlit("import");
    reveal_strlit("interface");
    reveal_strlit("map");
    reveal_strlit("package");
    reveal_strlit("range");
    reveal_strlit("return");
    reveal_strlit("select");
    reveal_strlit("struct");
    reveal_strlit("switch");
    reveal_strlit("type");
    reveal_strlit("var");
    match t {
        TokView::Keyword(k) => {
            match k {
                Keyword::Break => {
                    assert(text =~= "break"@);
                    assert(forall|m: int| 0 <= m < text.len() ==> is_ident_continue(#[trigger] text[m]));
                    lemma_word_token(text);
                    assert(keyword_of(text) == Some(k));
                },
                Keyword::Case => {
                    assert(text =~= "case"@);
                    assert(forall|m: int| 0 <= m < text.len() ==> is_ident_continue(#[trigger] text[m]));
                    lemma_word_token(text);
                    assert(keyword_of(text) == Some(k));
                },
                Keyword::Chan => {
                    assert(text =~= "chan"@);
                    assert(forall|m: int| 0 <= m < text.len() ==> is_ident_continue(#[trigger] text[m]));
                    lemma_word_token(text);
                    assert(keyword_of(text) == Some(k));
                },
                Keyword::Const => {
                    assert(text =~= "const"@);
                    assert(forall|m: int| 0 <= m < text.len() ==> is_ident_continue(#[trigger] text[m]));
                    lemma_word_token(text);
                    assert(keyword_of(text) == Some(k));
                },
                Keyword::Continue => {
                    assert(text =~= "continue"@);
                    assert(forall|m: int| 0 <= m < text.len() ==> is_ident_continue(#[trigger] text[m]));
                    lemma_word_token(text);
                    assert(keyword_of(text) == Some(k));
                },
                Keyword::Default => {
                    assert(text =~= "default"@);
                    assert(forall|m: int| 0 <= m < text.len() ==> is_ident_continue(#[trigger] text[m]));
                    lemma_word_token(text);
                    assert(keyword_of(text) == Some(k));
                },
                Keyword::Defer => {
                    assert(text =~= "defer"@);
                    assert(forall|m: int| 0 <= m < text.len() ==> is_ident_continue(#[trigger] text[m]));
                    lemma_word_token(text);
                    assert(keyword_of(text) == Some(k));
                },
                Keyword::Else => {
                    assert(text =~= "else"@);
                    assert(forall|m: int| 0 <= m < text.len() ==> is_ident_continue(#[trigger] text[m]));
                    lemma_word_token(text);
                    assert(keyword_of(text) == Some(k));
                },
                Keyword::Fallthrough => {
                    assert(text =~= "fallthrough"@);
                    assert(forall|m: int| 0 <= m < text.len() ==> is_ident_continue(#[trigger] text[m]));
                    lemma_word_token(text);
                    assert(keyword_of(text) == Some(k));
                },
                Keyword::For => {
                    assert(text =~= "for"@);
                    assert(forall|m: int| 0 <= m < text.len() ==> is_ident_continue(#[trigger] text[m]));
                    lemma_word_token(text);
                    assert(keyword_of(text) == Some(k));
                },
                Keyword::Func => {
                    assert(text =~= "func"@);
                    assert(forall|m: int| 0 <= m < text.len() ==> is_ident_continue(#[trigger] text[m]));
                    lemma_word_token(text);
                    assert(keyword_of(text) == Some(k));
                },
                Keyword::Go => {
                    assert(text =~= "go"@);
                    assert(forall|m: int| 0 <= m < text.len() ==> is_ident_continue(#[trigger] text[m]));
                    lemma_word_token(text);
                    assert(keyword_of(text) == Some(k));
                },
                Keyword::Goto => {
                    assert(text =~= "goto"@);
                    assert(forall|m: int| 0 <= m < text.len() ==> is_ident_continue(#[trigger] text[m]));
                    lemma_word_token(text);
                    assert(keyword_of(text) == Some(k));
                },
                Keyword::If => {
                    assert(text =~= "if"@);
                    assert(forall|m: int| 0 <= m < text.len() ==> is_ident_continue(#[trigger] text[m]));
                    lemma_word_token(text);
                    assert(keyword_of(text) == Some(k));
                },
                Keyword::Import => {
                    assert(text =~= "import"@);
                    assert(forall|m: int| 0 <= m < text.len() ==> is_ident_continue(#[trigger] text[m]));
                    lemma_word_token(text);
                    assert(keyword_of(text) == Some(k));
                },
                Keyword::Interface => {
                    assert(text =~= "interface"@);
                    assert(forall|m: int| 0 <= m < text.len() ==> is_ident_continue(#[trigger] text[m]));
                    lemma_word_token(text);
                    assert(keyword_of(text) == Some(k));
                },
                Keyword::MapKw => {
                    assert(text =~= "map"@);
                    assert(forall|m: int| 0 <= m < text.len() ==> is_ident_continue(#[trigger] text[m]));
                    lemma_word_token(text);
                    assert(keyword_of(text) == Some(k));
                },
                Keyword::Package => {
                    assert(text =~= "package"@);
                    assert(forall|m: int| 0 <= m < text.len() ==> is_ident_continue(#[trigger] text[m]));
                    lemma_word_token(text);
                    assert(keyword_of(text) == Some(k));
                },
                Keyword::Range => {
                    assert(text =~= "range"@);
                    assert(forall|m: int| 0 <= m < text.len() ==> is_ident_continue(#[trigger] text[m]));
                    lemma_word_token(text);
                    assert(keyword_of(text) == Some(k));
                },
                Keyword::Return => {
                    assert(text =~= "return"@);
                    assert(forall|m: int| 0 <= m < text.len() ==> is_ident_continue(#[trigger] text[m]));
                    lemma_word_token(text);
                    assert(keyword_of(text) == Some(k));
                },
                Keyword::Select => {
                    assert(text =~= "select"@);
                    assert(forall|m: int| 0 <= m < text.len() ==> is_ident_continue(#[trigger] text[m]));
                    lemma_word_token(text);
                    assert(keyword_of(text) == Some(k));
                },
                Keyword::Struct => {
                    assert(text =~= "struct"@);
                    assert(forall|m: int| 0 <= m < text.len() ==> is_ident_continue(#[trigger] text[m]));
                    lemma_word_token(text);
                    assert(keyword_of(text) == Some(k));
                },
                Keyword::Switch => {
                    assert(text =~= "switch"@);
                    assert(forall|m: int| 0 <= m < text.len() ==> is_ident_continue(#[trigger] text[m]));
                    lemma_word_token(text);
                    assert(keyword_of(text) == Some(k));
                },
                Keyword::Type => {
                    assert(text =~= "type"@);
                    assert(forall|m: int| 0 <= m < text.len() ==> is_ident_continue(#[trigger] text[m]));
                    lemma_word_token(text);
                    assert(keyword_of(text) == Some(k));
                },
                Keyword::Var => {
                    assert(text =~= "var"@);
                    assert(forall|m: int| 0 <= m < text.len() ==> is_ident_continue(#[trigger] text[m]));
                    lemma_word_token(text);
                    assert(keyword_of(text) == Some(k));
                },
            }
        },
        TokView::Ident(s) => {
            lemma_word_token(text);
        },
        TokView::Literal(LitView::Str(s)) => {
            assert(text[0] == '"');
            assert(forall|m: int| 1 <= m < s.len() + 1 ==> #[trigger] text[m] == s[m - 1]);
            lemma_scan_until(text, 1, s.len() as int + 1, '"');
            assert(text.subrange(1, s.len() as int + 1) =~= s);
        },
        TokView::Literal(LitView::Int(s)) => {
            lemma_int_token(text);
        },
        TokView::Whitespace => {
            assert(is_white(' '));
            lemma_run_len(text, 0, 1, white_pred());
        },
        _ => {},
    }
}

/// LAW (single-token round trip): for every token kind, tokenizing its
/// canonical minimal source text yields exactly that one token, positioned
/// at the start of the text.
pub proof fn lemma_single_token_round_trip(t: TokView)
    requires
        canonical_wf(t),
    ensures
        spec_tokenize(canonical_text(t), 0) == Ok::<_, (LexErrorKind, int)>(
            seq![(t, 0int)],
        ),
{
    let text = canonical_text(t);
    lemma_lex_canonical(t);
    assert(text.len() >= 1) by {
        match t {
            TokView::Literal(LitView::Str(s)) => {
                assert(text.len() == s.len() + 2);
            },
            _ => {},
        }
    }
    lemma_spec_tokenize_step(text, 0);
    assert(spec_tokenize(text, text.len() as int) == Ok::<_, (LexErrorKind, int)>(
        Seq::<(TokView, int)>::empty(),
    ));
    assert(Seq::empty().push((t, 0int)) + Seq::empty() =~= seq![(t, 0int)]);
}


/// A run scanned in a suffix is the same run after text is prepended.
proof fn lemma_run_len_shift(a: Seq<char>, b: Seq<char>, i: int, p: spec_fn(char) -> bool)
    requires
        0 <= i <= b.len(),
    ensures
        run_len(a + b, a.len() + i, p) == run_len(b, i, p),
    decreases b.len() - i,
{
    if i < b.len() {
        assert((a + b)[a.len() + i] == b[i]);
        if p(b[i]) {
            lemma_run_len_shift(a, b, i + 1, p);
        }
    }
}

/// A scan in a suffix finds the same character after text is prepended.
proof fn lemma_scan_until_shift(a: Seq<char>, b: Seq<char>, i: int, q: char)
    requires
        0 <= i <= b.len(),
    ensures
        scan_until(a + b, a.len() + i, q) == match scan_until(b, i, q) {
            Some(k) => Some(a.len() + k),
            None => None::<int>,
        },
    decreases b.len() - i,
{
    if i < b.len() {
        assert((a + b)[a.len() + i] == b[i]);
        if b[i] != q {
            lemma_scan_until_shift(a, b, i + 1, q);
        }
    }
}

/// The token at the start of a suffix does not depend on the text before it.
#[verifier::rlimit(40)]
proof fn lemma_lex_one_shift(a: Seq<char>, b: Seq<char>)
    requires
        b.len() > 0,
    ensures
        match lex_one(b, 0) {
            Ok((t, j)) => lex_one(a + b, a.len() as int) == Ok::<_, LexErrorKind>((
                t,
                a.len() + j,
            )),
            Err(k) => lex_one(a + b, a.len() as int) == Err::<(TokView, int), _>(k),
        },
{
    let s = a + b;
    let n = a.len() as int;
    assert(s[n] == b[0]);
    if b.len() > 1 {
        assert(s[n + 1] == b[1]);
    }
    lemma_run_len_shift(a, b, 0, ident_continue_pred());
    lemma_run_len_shift(a, b, 0, digit_pred());
    lemma_run_len_shift(a, b, 0, white_pred());
    lemma_scan_until_shift(a, b, 1, '"');
    let m1 = run_len(b, 0, ident_continue_pred());
    lemma_run_len_bound(b, 0, ident_continue_pred());
    assert(s.subrange(n, n + m1) =~= b.subrange(0, m1));
    let m2 = run_len(b, 0, digit_pred());
    lemma_run_len_bound(b, 0, digit_pred());
    assert(s.subrange(n, n + m2) =~= b.subrange(0, m2));
    lemma_scan_until_bound(b, 1, '"');
    match scan_until(b, 1, '"') {
        Some(k) => {
            assert(s.subrange(n + 1, n + k) =~= b.subrange(1, k));
        },
        None => {},
    }
}

/// Whether the token `t` cannot munch the first character of the text that
/// follows it: the boundary between them is grammatically unambiguous.
pub open spec fn separable(t: TokView, b: Seq<char>) -> bool {
    b.len() > 0 && {
        let c = b[0];
        match t {
            TokView::Ident(_) => !is_ident_continue(c),
            TokView::Keyword(_) => !is_ident_continue(c),
            TokView::Literal(LitView::Int(_)) => !is_digit(c),
            TokView::Whitespace => !is_white(c),
            TokView::Plus => c != '+' && c != '=',
            TokView::Minus => c != '-' && c != '=',
            TokView::Pipe => c != '|' && c != '=',
            TokView::Amp => c != '&' && c != '=' && c != '^',
            TokView::Lt => c != '<' && c != '=' && c != '-',
            TokView::Gt => c != '>' && c != '=',
            TokView::Star => c != '=',
            TokView::Slash => c != '=',
            TokView::Percent => c != '=',
            TokView::Caret => c != '=',
            TokView::Equals => c != '=',
            TokView::Not => c != '=',
            TokView::Colon => c != '=',
            _ => true,
        }
    }
}

/// A token that spans a whole text is still the first token after more text
/// is appended, provided the boundary is unambiguous.
#[verifier::rlimit(40)]
proof fn lemma_lex_first(a: Seq<char>, b: Seq<char>, t: TokView)
    requires
        a.len() > 0,
        lex_one(a, 0) == Ok::<_, LexErrorKind>((t, a.len() as int)),
        separable(t, b),
    ensures
        lex_one(a + b, 0) == Ok::<_, LexErrorKind>((t, a.len() as int)),
{
    let s = a + b;
    let na = a.len() as int;
    assert(forall|m: int| 0 <= m < na ==> s[m] == a[m]);
    assert(s[na] == b[0]);
    let c = a[0];
    assert(s[0] == c);
    if a.len() > 1 {
        assert(s[1] == a[1]);
    } else {
        assert(s[1] == b[0]);
    }
    if c == '"' {
        lemma_scan_until_bound(a, 1, '"');
        match scan_until(a, 1, '"') {
            Some(k) => {
                assert forall|m: int| 1 <= m < k implies s[m] != '"' by {
                    assert(a[m] != '"');
                }
                assert(s[k] == a[k]);
                lemma_scan_until(s, 1, k, '"');
                assert(s.subrange(1, k) =~= a.subrange(1, k));
            },
            None => {},
        }
    } else if !(c == '(' || c == ')' || c == '{' || c == '}' || c == '[' || c == ']' || c == ','
        || c == '.' || c == ';' || c == ':' || c == '+' || c == '-' || c == '|' || c == '&'
        || c == '*' || c == '/' || c == '%' || c == '^' || c == '=' || c == '!' || c == '<'
        || c == '>') {
        if is_digit(c) {
            lemma_run_len_bound(a, 0, digit_pred());
            assert(run_len(a, 0, digit_pred()) == na);
            assert(a.subrange(0, na) =~= a);
            assert(!digit_pred()(s[na]));
            assert forall|m: int| 0 <= m < na implies digit_pred()(s[m]) by {
                assert(digit_pred()(a[m]));
            }
            lemma_run_len(s, 0, na, digit_pred());
            assert(s.subrange(0, na) =~= a);
        } else if is_ident_start(c) {
            lemma_run_len_bound(a, 0, ident_continue_pred());
            assert(run_len(a, 0, ident_continue_pred()) == na);
            assert(a.subrange(0, na) =~= a);
            assert(!ident_continue_pred()(s[na]));
            assert forall|m: int| 0 <= m < na implies ident_continue_pred()(s[m]) by {
                assert(ident_continue_pred()(a[m]));
            }
            lemma_run_len(s, 0, na, ident_continue_pred());
            assert(s.subrange(0, na) =~= a);
        } else if is_white(c) {
            lemma_run_len_bound(a, 0, white_pred());
            assert(run_len(a, 0, white_pred()) == na);
            assert(!white_pred()(s[na]));
            assert forall|m: int| 0 <= m < na implies white_pred()(s[m]) by {
                assert(white_pred()(a[m]));
            }
            lemma_run_len(s, 0, na, white_pred());
        }
    }
}

/// LAW (token independence): for two single tokens whose boundary is
/// unambiguous (see [`separable`]), tokenizing the concatenation of their
/// texts yields exactly the two tokens, the second positioned where the
/// first text ends — tokenizing a run is the concatenation of independent
/// single-token tokenizations.
pub proof fn lemma_token_independence(a: Seq<char>, b: Seq<char>, ta: TokView, tb: TokView)
    requires
        a.len() > 0,
        b.len() > 0,
        lex_one(a, 0) == Ok::<_, LexErrorKind>((ta, a.len() as int)),
        lex_one(b, 0) == Ok::<_, LexErrorKind>((tb, b.len() as int)),
        separable(ta, b),
    ensures
        spec_tokenize(a + b, 0) == Ok::<_, (LexErrorKind, int)>(
            seq![(ta, 0int), (tb, a.len() as int)],
        ),
{
    let s = a + b;
    lemma_lex_first(a, b, ta);
    lemma_lex_one_shift(a, b);
    lemma_spec_tokenize_step(s, 0);
    lemma_spec_tokenize_step(s, a.len() as int);
    assert(spec_tokenize(s, s.len() as int) == Ok::<_, (LexErrorKind, int)>(
        Seq::<(TokView, int)>::empty(),
    ));
    assert(Seq::empty().push((tb, a.len() as int)) + Seq::<(TokView, int)>::empty() =~= seq![
        (tb, a.len() as int),
    ]);
    assert(Seq::empty().push((ta, 0int)) + seq![(tb, a.len() as int)] =~= seq![
        (ta, 0int),
        (tb, a.len() as int),
    ]);
}

} // verus!
