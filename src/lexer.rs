//! The tokenizer: source text to a sequence of tokens.
//!
//! It never fails. Whitespace and `#` comments are skipped, characters that
//! start no token are dropped, and multi-character operators are preferred
//! over their one-character prefixes.
use vstd::prelude::*;
use crate::ast::Decimal;

verus! {

/// A float literal holds at most eighteen digits once the trailing zeros of
/// its fraction are dropped: one whose digits, read as an integer, reach this
/// bound overflows and reads as zero.
pub const DECIMAL_LIMIT: i64 = 1_000_000_000_000_000_000;

/// The most digits that a float literal may have after its point, trailing
/// zeros aside.
pub const MAX_SCALE: u32 = 18;

/// One lexical unit of the query language.
#[derive(Debug, Clone, PartialEq)]
pub enum Token {
    // Keywords
    Source,
    Show,
    Filter,
    Sort,
    By,
    Cap,
    MapKw,
    Unique,
    Merge,
    Alias,
    Cluster,
    With,
    Exclude,
    Fuzzy,
    Watch,
    OnError,
    True,
    False,
    // Operators and punctuation
    Eq,
    NotEq,
    Gt,
    Lt,
    Assign,
    Gte,
    Lte,
    Comma,
    LParen,
    RParen,
    Pipe,
    // Literals
    StringLiteral(String),
    Float(Decimal),
    Number(i64),
    Ident(String),
}

/// A token with its text payload seen as a sequence of characters.
pub enum TokenView {
    Source,
    Show,
    Filter,
    Sort,
    By,
    Cap,
    MapKw,
    Unique,
    Merge,
    Alias,
    Cluster,
    With,
    Exclude,
    Fuzzy,
    Watch,
    OnError,
    True,
    False,
    Eq,
    NotEq,
    Gt,
    Lt,
    Assign,
    Gte,
    Lte,
    Comma,
    LParen,
    RParen,
    Pipe,
    StringLiteral(Seq<char>),
    Float(Decimal),
    Number(i64),
    Ident(Seq<char>),
}

impl View for Token {
    type V = TokenView;

    open spec fn view(&self) -> TokenView {
        match self {
            Token::Source => TokenView::Source,
            Token::Show => TokenView::Show,
            Token::Filter => TokenView::Filter,
            Token::Sort => TokenView::Sort,
            Token::By => TokenView::By,
            Token::Cap => TokenView::Cap,
            Token::MapKw => TokenView::MapKw,
            Token::Unique => TokenView::Unique,
            Token::Merge => TokenView::Merge,
            Token::Alias => TokenView::Alias,
            Token::Cluster => TokenView::Cluster,
            Token::With => TokenView::With,
            Token::Exclude => TokenView::Exclude,
            Token::Fuzzy => TokenView::Fuzzy,
            Token::Watch => TokenView::Watch,
            Token::OnError => TokenView::OnError,
            Token::True => TokenView::True,
            Token::False => TokenView::False,
            Token::Eq => TokenView::Eq,
            Token::NotEq => TokenView::NotEq,
            Token::Gt => TokenView::Gt,
            Token::Lt => TokenView::Lt,
            Token::Assign => TokenView::Assign,
            Token::Gte => TokenView::Gte,
            Token::Lte => TokenView::Lte,
            Token::Comma => TokenView::Comma,
            Token::LParen => TokenView::LParen,
            Token::RParen => TokenView::RParen,
            Token::Pipe => TokenView::Pipe,
            Token::StringLiteral(s) => TokenView::StringLiteral(s@),
            Token::Float(d) => TokenView::Float(*d),
            Token::Number(n) => TokenView::Number(*n),
            Token::Ident(s) => TokenView::Ident(s@),
        }
    }
}

pub open spec fn opt_view(t: Option<Token>) -> Option<TokenView> {
    match t {
        Some(t) => Some(t@),
        None => None,
    }
}

/// The views of a sequence of tokens.
pub open spec fn views(ts: Seq<Token>) -> Seq<TokenView> {
    ts.map_values(|t: Token| t@)
}

// ---------------------------------------------------------------------------
// Character classes and scanning

pub open spec fn is_space(c: char) -> bool {
    c == ' ' || c == '\t' || c == '\n' || c == '\r' || c == '\x0C'
}

pub open spec fn is_digit(c: char) -> bool {
    '0' <= c && c <= '9'
}

pub open spec fn is_ident_start(c: char) -> bool {
    ('a' <= c && c <= 'z') || ('A' <= c && c <= 'Z') || c == '_'
}

pub open spec fn is_ident_char(c: char) -> bool {
    is_ident_start(c) || is_digit(c)
}

/// The classes of characters that make up a run.
#[derive(Clone, Copy, PartialEq, Eq, Structural)]
pub enum CharClass {
    Digit,
    IdentChar,
    /// Anything but a line feed: the body of a comment.
    NotNewline,
}

pub open spec fn in_class(c: char, class: CharClass) -> bool {
    match class {
        CharClass::Digit => is_digit(c),
        CharClass::IdentChar => is_ident_char(c),
        CharClass::NotNewline => c != '\n',
    }
}

/// The end of the longest run of `class` characters starting at `i`.
pub open spec fn scan_end(s: Seq<char>, i: int, class: CharClass) -> int
    decreases s.len() - i,
{
    if 0 <= i < s.len() && in_class(s[i], class) {
        scan_end(s, i + 1, class)
    } else {
        i
    }
}

/// Where the string literal whose body starts at `i` is closed: the index
/// of its closing quote. A backslash escapes the next character, which may
/// not be a line feed.
pub open spec fn string_close(s: Seq<char>, i: int) -> Option<int>
    decreases s.len() - i,
{
    if i < 0 || i >= s.len() {
        None
    } else if s[i] == '"' {
        Some(i)
    } else if s[i] == '\\' {
        if i + 1 < s.len() && s[i + 1] != '\n' {
            string_close(s, i + 2)
        } else {
            None
        }
    } else {
        string_close(s, i + 1)
    }
}

pub open spec fn digit_value(c: char) -> int {
    (c as u32) as int - ('0' as u32) as int
}

/// The number written by a sequence of decimal digits.
pub open spec fn digits_value(d: Seq<char>) -> int
    decreases d.len(),
{
    if d.len() == 0 {
        0
    } else {
        digits_value(d.drop_last()) * 10 + digit_value(d.last())
    }
}

pub open spec fn pow10(n: nat) -> int
    decreases n,
{
    if n == 0 {
        1
    } else {
        10 * pow10((n - 1) as nat)
    }
}

/// The value of an integer literal; one that does not fit `i64` reads as zero.
pub open spec fn number_value(d: Seq<char>) -> i64 {
    if digits_value(d) <= i64::MAX {
        digits_value(d) as i64
    } else {
        0
    }
}

/// The value of the float literal `int_part.frac_part`; one that a
/// [`Decimal`] cannot hold exactly reads as zero.
pub open spec fn float_value(int_part: Seq<char>, frac_part: Seq<char>) -> Decimal {
    let m = digits_value(int_part) * pow10(frac_part.len()) + digits_value(frac_part);
    if frac_part.len() <= MAX_SCALE && m < DECIMAL_LIMIT {
        Decimal { mantissa: m as i64, scale: frac_part.len() as u32 }
    } else {
        Decimal { mantissa: 0, scale: 0 }
    }
}

/// The end of `s[lo..hi]` once its trailing zeros are dropped: they do not
/// change the value of a fraction.
pub open spec fn trim_zeros_end(s: Seq<char>, lo: int, hi: int) -> int
    decreases hi - lo,
{
    if lo < hi && s[hi - 1] == '0' {
        trim_zeros_end(s, lo, hi - 1)
    } else {
        hi
    }
}

/// A word of identifier characters: a keyword if it is one, else an identifier.
pub open spec fn word_token(w: Seq<char>) -> TokenView {
    if w == "source"@ {
        TokenView::Source
    } else if w == "show"@ {
        TokenView::Show
    } else if w == "filter"@ {
        TokenView::Filter
    } else if w == "sort"@ {
        TokenView::Sort
    } else if w == "by"@ {
        TokenView::By
    } else if w == "cap"@ {
        TokenView::Cap
    } else if w == "map"@ {
        TokenView::MapKw
    } else if w == "unique"@ {
        TokenView::Unique
    } else if w == "merge"@ {
        TokenView::Merge
    } else if w == "alias"@ {
        TokenView::Alias
    } else if w == "cluster"@ {
        TokenView::Cluster
    } else if w == "with"@ {
        TokenView::With
    } else if w == "exclude"@ {
        TokenView::Exclude
    } else if w == "fuzzy"@ {
        TokenView::Fuzzy
    } else if w == "watch"@ {
        TokenView::Watch
    } else if w == "on_error"@ {
        TokenView::OnError
    } else if w == "true"@ {
        TokenView::True
    } else if w == "false"@ {
        TokenView::False
    } else {
        TokenView::Ident(w)
    }
}

pub open spec fn followed_by(s: Seq<char>, i: int, d: char) -> bool {
    i + 1 < s.len() && s[i + 1] == d
}

/// The operator or punctuation token at `i`, and where the text after it starts.
pub open spec fn operator_step(s: Seq<char>, i: int) -> (Option<TokenView>, int) {
    let c = s[i];
    if c == '=' && followed_by(s, i, '=') {
        (Some(TokenView::Eq), i + 2)
    } else if c == '!' && followed_by(s, i, '=') {
        (Some(TokenView::NotEq), i + 2)
    } else if c == '>' && followed_by(s, i, '=') {
        (Some(TokenView::Gte), i + 2)
    } else if c == '<' && followed_by(s, i, '=') {
        (Some(TokenView::Lte), i + 2)
    } else if c == '|' && followed_by(s, i, '>') {
        (Some(TokenView::Pipe), i + 2)
    } else if c == '=' {
        (Some(TokenView::Assign), i + 1)
    } else if c == '>' {
        (Some(TokenView::Gt), i + 1)
    } else if c == '<' {
        (Some(TokenView::Lt), i + 1)
    } else if c == ',' {
        (Some(TokenView::Comma), i + 1)
    } else if c == '(' {
        (Some(TokenView::LParen), i + 1)
    } else if c == ')' {
        (Some(TokenView::RParen), i + 1)
    } else {
        (None, i + 1)
    }
}

/// One step of the tokenizer at `i < s.len()`: the token that starts there,
/// if any, and where the next step starts.
pub open spec fn step(s: Seq<char>, i: int) -> (Option<TokenView>, int) {
    let c = s[i];
    if is_space(c) {
        (None, i + 1)
    } else if c == '#' {
        (None, scan_end(s, i + 1, CharClass::NotNewline))
    } else if c == '"' {
        match string_close(s, i + 1) {
            Some(j) => (Some(TokenView::StringLiteral(s.subrange(i + 1, j))), j + 1),
            None => (None, i + 1),
        }
    } else if is_digit(c) {
        let j = scan_end(s, i, CharClass::Digit);
        if j + 1 < s.len() && s[j] == '.' && is_digit(s[j + 1]) {
            let k = scan_end(s, j + 1, CharClass::Digit);
            let f = float_value(s.subrange(i, j), s.subrange(j + 1, trim_zeros_end(s, j + 1, k)));
            (Some(TokenView::Float(f)), k)
        } else {
            (Some(TokenView::Number(number_value(s.subrange(i, j)))), j)
        }
    } else if is_ident_start(c) {
        let j = scan_end(s, i, CharClass::IdentChar);
        (Some(word_token(s.subrange(i, j))), j)
    } else {
        operator_step(s, i)
    }
}

pub open spec fn opt_seq(t: Option<TokenView>) -> Seq<TokenView> {
    match t {
        Some(t) => seq![t],
        None => seq![],
    }
}

/// The tokens of `s` from position `i` on.
pub open spec fn lex_from(s: Seq<char>, i: int) -> Seq<TokenView>
    decreases s.len() - i,
{
    if i < 0 || i >= s.len() {
        seq![]
    } else {
        proof {
            lemma_step_advances(s, i);
        }
        opt_seq(step(s, i).0) + lex_from(s, step(s, i).1)
    }
}

/// The tokens of a text.
pub open spec fn lex(s: Seq<char>) -> Seq<TokenView> {
    lex_from(s, 0)
}

// ---------------------------------------------------------------------------
// Lemmas

pub proof fn lemma_scan_end_bounds(s: Seq<char>, i: int, class: CharClass)
    requires
        0 <= i <= s.len(),
    ensures
        i <= scan_end(s, i, class) <= s.len(),
        forall|k: int| i <= k < scan_end(s, i, class) ==> in_class(#[trigger] s[k], class),
    decreases s.len() - i,
{
    if i < s.len() && in_class(s[i], class) {
        lemma_scan_end_bounds(s, i + 1, class);
    }
}

pub proof fn lemma_string_close_bounds(s: Seq<char>, i: int)
    requires
        0 <= i,
    ensures
        string_close(s, i) matches Some(j) ==> i <= j < s.len() && s[j] == '"',
    decreases s.len() - i,
{
    if 0 <= i < s.len() && s[i] != '"' {
        if s[i] == '\\' {
            if i + 1 < s.len() && s[i + 1] != '\n' {
                lemma_string_close_bounds(s, i + 2);
            }
        } else {
            lemma_string_close_bounds(s, i + 1);
        }
    }
}

pub proof fn lemma_step_advances(s: Seq<char>, i: int)
    requires
        0 <= i < s.len(),
    ensures
        i < step(s, i).1 <= s.len(),
{
    lemma_scan_end_bounds(s, i + 1, CharClass::NotNewline);
    lemma_string_close_bounds(s, i + 1);
    lemma_scan_end_bounds(s, i + 1, CharClass::Digit);
    lemma_scan_end_bounds(s, i + 1, CharClass::IdentChar);
    lemma_scan_end_bounds(s, i, CharClass::Digit);
    let j = scan_end(s, i, CharClass::Digit);
    if 0 <= j + 1 <= s.len() {
        lemma_scan_end_bounds(s, j + 1, CharClass::Digit);
    }
}

proof fn lemma_digits_step(d: Seq<char>, k: int)
    requires
        0 <= k < d.len(),
    ensures
        digits_value(d.subrange(0, k + 1)) == digits_value(d.subrange(0, k)) * 10 + digit_value(d[k]),
{
    assert(d.subrange(0, k + 1).drop_last() =~= d.subrange(0, k));
}

proof fn lemma_digits_nonneg(d: Seq<char>)
    requires
        forall|k: int| 0 <= k < d.len() ==> is_digit(#[trigger] d[k]),
    ensures
        digits_value(d) >= 0,
    decreases d.len(),
{
    if d.len() > 0 {
        lemma_digits_nonneg(d.drop_last());
    }
}

/// A prefix of a run of digits never reads as more than the whole run.
proof fn lemma_digits_prefix(d: Seq<char>, k: int)
    requires
        0 <= k <= d.len(),
        forall|m: int| 0 <= m < d.len() ==> is_digit(#[trigger] d[m]),
    ensures
        digits_value(d.subrange(0, k)) <= digits_value(d),
    decreases d.len() - k,
{
    if k < d.len() {
        lemma_digits_prefix(d, k + 1);
        lemma_digits_step(d, k);
        lemma_digits_nonneg(d.subrange(0, k));
    } else {
        assert(d.subrange(0, k) =~= d);
    }
}

pub proof fn lemma_pow10_positive(n: nat)
    ensures
        pow10(n) >= 1,
    decreases n,
{
    if n > 0 {
        lemma_pow10_positive((n - 1) as nat);
    }
}

proof fn lemma_pow10_max()
    ensures
        pow10(MAX_SCALE as nat) == DECIMAL_LIMIT,
{
    reveal_with_fuel(pow10, 19);
}

pub proof fn lemma_pow10_monotone(a: nat, b: nat)
    requires
        a <= b,
    ensures
        pow10(a) <= pow10(b),
    decreases b,
{
    if a < b {
        lemma_pow10_monotone(a, (b - 1) as nat);
        lemma_pow10_positive((b - 1) as nat);
    }
}

// ---------------------------------------------------------------------------
// Executable tokenizer

fn text_chars(s: &str) -> (r: Vec<char>)
    ensures
        r@ == s@,
{
    let n = s.unicode_len();
    let mut r: Vec<char> = Vec::new();
    let mut i: usize = 0;
    while i < n
        invariant
            n == s@.len(),
            i <= n,
            r@ == s@.subrange(0, i as int),
        decreases n - i,
    {
        r.push(s.get_char(i));
        i += 1;
        assert(r@ =~= s@.subrange(0, i as int));
    }
    assert(r@ =~= s@);
    r
}

fn class_contains(c: char, class: CharClass) -> (r: bool)
    ensures
        r == in_class(c, class),
{
    match class {
        CharClass::Digit => '0' <= c && c <= '9',
        CharClass::IdentChar => ('a' <= c && c <= 'z') || ('A' <= c && c <= 'Z') || c == '_' || (
        '0' <= c && c <= '9'),
        CharClass::NotNewline => c != '\n',
    }
}

fn scan(chars: &Vec<char>, i: usize, class: CharClass) -> (r: usize)
    requires
        i <= chars@.len(),
    ensures
        r == scan_end(chars@, i as int, class),
        i <= r <= chars@.len(),
{
    let mut j = i;
    while j < chars.len() && class_contains(chars[j], class)
        invariant
            i <= j <= chars@.len(),
            scan_end(chars@, j as int, class) == scan_end(chars@, i as int, class),
        decreases chars@.len() - j,
    {
        j += 1;
    }
    j
}

fn close_quote(chars: &Vec<char>, i: usize) -> (r: Option<usize>)
    requires
        i <= chars@.len(),
    ensures
        match r {
            Some(j) => string_close(chars@, i as int) == Some(j as int),
            None => string_close(chars@, i as int) is None,
        },
{
    let n = chars.len();
    let mut j = i;
    while j < n
        invariant
            n == chars@.len(),
            i <= j,
            string_close(chars@, j as int) == string_close(chars@, i as int),
        decreases n - j,
    {
        if chars[j] == '"' {
            return Some(j);
        } else if chars[j] == '\\' {
            if j + 1 < n && chars[j + 1] != '\n' {
                j += 2;
            } else {
                return None;
            }
        } else {
            j += 1;
        }
    }
    None
}

/// The value of the digits `chars[from..to]` if it is at most `limit`.
fn read_digits(chars: &Vec<char>, from: usize, to: usize, limit: u64) -> (r: Option<u64>)
    requires
        from <= to <= chars@.len(),
        limit >= 9,
        forall|k: int| from <= k < to ==> is_digit(#[trigger] chars@[k]),
    ensures
        match r {
            Some(v) => v == digits_value(chars@.subrange(from as int, to as int)) && v <= limit,
            None => digits_value(chars@.subrange(from as int, to as int)) > limit,
        },
{
    let ghost d = chars@.subrange(from as int, to as int);
    let mut acc: u64 = 0;
    let mut k = from;
    assert(d.subrange(0, 0) =~= Seq::<char>::empty());
    while k < to
        invariant
            from <= k <= to <= chars@.len(),
            d == chars@.subrange(from as int, to as int),
            forall|m: int| 0 <= m < d.len() ==> is_digit(#[trigger] d[m]),
            acc as int == digits_value(d.subrange(0, k - from)),
            acc <= limit,
            limit >= 9,
        decreases to - k,
    {
        proof {
            lemma_digits_step(d, k - from);
        }
        let c = chars[k];
        assert(d[k - from] == c);
        let digit = ((c as u32) - ('0' as u32)) as u64;
        if acc > (limit - digit) / 10 {
            proof {
                lemma_digits_prefix(d, k - from + 1);
            }
            return None;
        }
        acc = acc * 10 + digit;
        k += 1;
    }
    assert(d.subrange(0, to - from) =~= d);
    Some(acc)
}

fn pow10_exec(n: u32) -> (r: u64)
    requires
        n <= MAX_SCALE,
    ensures
        r == pow10(n as nat),
        1 <= r <= DECIMAL_LIMIT,
{
    let mut r: u64 = 1;
    let mut i: u32 = 0;
    proof {
        lemma_pow10_max();
        lemma_pow10_monotone(0, n as nat);
        lemma_pow10_monotone(n as nat, MAX_SCALE as nat);
    }
    while i < n
        invariant
            i <= n <= MAX_SCALE,
            r == pow10(i as nat),
            1 <= r <= pow10(i as nat),
            pow10(i as nat) <= pow10(n as nat),
            pow10(n as nat) <= DECIMAL_LIMIT,
        decreases n - i,
    {
        proof {
            lemma_pow10_monotone((i + 1) as nat, n as nat);
        }
        r = r * 10;
        i += 1;
    }
    r
}

/// Whether `chars[i..j]` spells the literal `lit`.
fn spells(chars: &Vec<char>, i: usize, j: usize, lit: &str) -> (r: bool)
    requires
        i <= j <= chars@.len(),
    ensures
        r == (chars@.subrange(i as int, j as int) == lit@),
{
    let n = lit.unicode_len();
    if j - i != n {
        return false;
    }
    let mut k: usize = 0;
    while k < n
        invariant
            n == lit@.len(),
            j - i == n,
            i <= j <= chars@.len(),
            k <= n,
            forall|m: int| 0 <= m < k ==> chars@[i + m] == lit@[m],
        decreases n - k,
    {
        if chars[i + k] != lit.get_char(k) {
            assert(chars@.subrange(i as int, j as int)[k as int] != lit@[k as int]);
            return false;
        }
        k += 1;
    }
    assert(chars@.subrange(i as int, j as int) =~= lit@);
    true
}

fn word(text: &str, chars: &Vec<char>, i: usize, j: usize) -> (r: Token)
    requires
        chars@ == text@,
        i <= j <= chars@.len(),
    ensures
        r@ == word_token(chars@.subrange(i as int, j as int)),
{
    if spells(chars, i, j, "source") {
        Token::Source
    } else if spells(chars, i, j, "show") {
        Token::Show
    } else if spells(chars, i, j, "filter") {
        Token::Filter
    } else if spells(chars, i, j, "sort") {
        Token::Sort
    } else if spells(chars, i, j, "by") {
        Token::By
    } else if spells(chars, i, j, "cap") {
        Token::Cap
    } else if spells(chars, i, j, "map") {
        Token::MapKw
    } else if spells(chars, i, j, "unique") {
        Token::Unique
    } else if spells(chars, i, j, "merge") {
        Token::Merge
    } else if spells(chars, i, j, "alias") {
        Token::Alias
    } else if spells(chars, i, j, "cluster") {
        Token::Cluster
    } else if spells(chars, i, j, "with") {
        Token::With
    } else if spells(chars, i, j, "exclude") {
        Token::Exclude
    } else if spells(chars, i, j, "fuzzy") {
        Token::Fuzzy
    } else if spells(chars, i, j, "watch") {
        Token::Watch
    } else if spells(chars, i, j, "on_error") {
        Token::OnError
    } else if spells(chars, i, j, "true") {
        Token::True
    } else if spells(chars, i, j, "false") {
        Token::False
    } else {
        Token::Ident(text.substring_char(i, j).to_owned())
    }
}

fn number_token(chars: &Vec<char>, i: usize, j: usize) -> (r: Token)
    requires
        i <= j <= chars@.len(),
        forall|k: int| i <= k < j ==> is_digit(#[trigger] chars@[k]),
    ensures
        r@ == TokenView::Number(number_value(chars@.subrange(i as int, j as int))),
{
    match read_digits(chars, i, j, i64::MAX as u64) {
        Some(v) => Token::Number(v as i64),
        None => Token::Number(0),
    }
}

fn float_token(chars: &Vec<char>, i: usize, j: usize, k: usize) -> (r: Token)
    requires
        i <= j < k <= chars@.len(),
        forall|m: int| i <= m < j ==> is_digit(#[trigger] chars@[m]),
        forall|m: int| j < m < k ==> is_digit(#[trigger] chars@[m]),
    ensures
        r@ == TokenView::Float(
            float_value(chars@.subrange(i as int, j as int), chars@.subrange(j + 1, k as int)),
        ),
{
    let ghost ip = chars@.subrange(i as int, j as int);
    let ghost fp = chars@.subrange(j + 1, k as int);
    let zero = Token::Float(Decimal { mantissa: 0, scale: 0 });
    let frac_len = k - j - 1;
    assert(fp.len() == frac_len);
    proof {
        lemma_digits_nonneg(ip);
        lemma_digits_nonneg(fp);
        lemma_pow10_positive(fp.len());
    }
    if frac_len > MAX_SCALE as usize {
        return zero;
    }
    let limit = (DECIMAL_LIMIT - 1) as u64;
    let a = match read_digits(chars, i, j, limit) {
        Some(v) => v,
        None => {
            assert(digits_value(ip) * pow10(fp.len()) >= digits_value(ip)) by (nonlinear_arith)
                requires
                    digits_value(ip) >= 0,
                    pow10(fp.len()) >= 1,
            ;
            return zero;
        },
    };
    let b = match read_digits(chars, j + 1, k, limit) {
        Some(v) => v,
        None => {
            assert(digits_value(ip) * pow10(fp.len()) >= 0) by (nonlinear_arith)
                requires
                    digits_value(ip) >= 0,
                    pow10(fp.len()) >= 1,
            ;
            return zero;
        },
    };
    let p = pow10_exec(frac_len as u32);
    assert((a as int) * (p as int) <= (DECIMAL_LIMIT as int) * (DECIMAL_LIMIT as int))
        by (nonlinear_arith)
        requires
            0 <= a < DECIMAL_LIMIT,
            1 <= p <= DECIMAL_LIMIT,
    ;
    let m: u128 = (a as u128) * (p as u128) + (b as u128);
    if m < DECIMAL_LIMIT as u128 {
        Token::Float(Decimal { mantissa: m as i64, scale: frac_len as u32 })
    } else {
        zero
    }
}

fn trimmed_end(chars: &Vec<char>, lo: usize, hi: usize) -> (r: usize)
    requires
        lo <= hi <= chars@.len(),
    ensures
        r == trim_zeros_end(chars@, lo as int, hi as int),
        lo <= r <= hi,
{
    let mut e = hi;
    while lo < e && chars[e - 1] == '0'
        invariant
            lo <= e <= hi <= chars@.len(),
            trim_zeros_end(chars@, lo as int, e as int) == trim_zeros_end(chars@, lo as int, hi as int),
        decreases e - lo,
    {
        e -= 1;
    }
    e
}

fn next_char_is(chars: &Vec<char>, i: usize, d: char) -> (r: bool)
    requires
        i < chars@.len(),
    ensures
        r == followed_by(chars@, i as int, d),
{
    chars.len() - i > 1 && chars[i + 1] == d
}

fn operator(chars: &Vec<char>, i: usize) -> (r: (Option<Token>, usize))
    requires
        i < chars@.len(),
    ensures
        opt_view(r.0) == operator_step(chars@, i as int).0,
        r.1 == operator_step(chars@, i as int).1,
{
    let _n = chars.len();
    let c = chars[i];
    if c == '=' && next_char_is(chars, i, '=') {
        (Some(Token::Eq), i + 2)
    } else if c == '!' && next_char_is(chars, i, '=') {
        (Some(Token::NotEq), i + 2)
    } else if c == '>' && next_char_is(chars, i, '=') {
        (Some(Token::Gte), i + 2)
    } else if c == '<' && next_char_is(chars, i, '=') {
        (Some(Token::Lte), i + 2)
    } else if c == '|' && next_char_is(chars, i, '>') {
        (Some(Token::Pipe), i + 2)
    } else if c == '=' {
        (Some(Token::Assign), i + 1)
    } else if c == '>' {
        (Some(Token::Gt), i + 1)
    } else if c == '<' {
        (Some(Token::Lt), i + 1)
    } else if c == ',' {
        (Some(Token::Comma), i + 1)
    } else if c == '(' {
        (Some(Token::LParen), i + 1)
    } else if c == ')' {
        (Some(Token::RParen), i + 1)
    } else {
        (None, i + 1)
    }
}

fn next_token(text: &str, chars: &Vec<char>, i: usize) -> (r: (Option<Token>, usize))
    requires
        chars@ == text@,
        i < chars@.len(),
    ensures
        opt_view(r.0) == step(chars@, i as int).0,
        r.1 == step(chars@, i as int).1,
{
    let _n = chars.len();
    let c = chars[i];
    if c == ' ' || c == '\t' || c == '\n' || c == '\r' || c == '\x0C' {
        (None, i + 1)
    } else if c == '#' {
        (None, scan(chars, i + 1, CharClass::NotNewline))
    } else if c == '"' {
        match close_quote(chars, i + 1) {
            Some(j) => {
                proof {
                    lemma_string_close_bounds(chars@, i + 1);
                }
                let body = text.substring_char(i + 1, j).to_owned();
                (Some(Token::StringLiteral(body)), j + 1)
            },
            None => (None, i + 1),
        }
    } else if '0' <= c && c <= '9' {
        let j = scan(chars, i, CharClass::Digit);
        proof {
            lemma_scan_end_bounds(chars@, i as int, CharClass::Digit);
        }
        if chars.len() - j > 1 && chars[j] == '.' && '0' <= chars[j + 1] && chars[j + 1] <= '9' {
            let k = scan(chars, j + 1, CharClass::Digit);
            proof {
                lemma_scan_end_bounds(chars@, j + 1, CharClass::Digit);
            }
            let k2 = trimmed_end(chars, j + 1, k);
            (Some(float_token(chars, i, j, k2)), k)
        } else {
            (Some(number_token(chars, i, j)), j)
        }
    } else if ('a' <= c && c <= 'z') || ('A' <= c && c <= 'Z') || c == '_' {
        let j = scan(chars, i, CharClass::IdentChar);
        (Some(word(text, chars, i, j)), j)
    } else {
        operator(chars, i)
    }
}

/// Splits `input` into tokens. It never fails: whitespace and comments are
/// skipped and characters that start no token are dropped.
pub fn tokenize(input: &str) -> (r: Vec<Token>)
    ensures
        views(r@) == lex(input@),
{
    let chars = text_chars(input);
    let n = chars.len();
    let mut out: Vec<Token> = Vec::new();
    let mut i: usize = 0;
    while i < n
        invariant
            chars@ == input@,
            n == chars@.len(),
            i <= n,
            views(out@) + lex_from(input@, i as int) == lex(input@),
        decreases n - i,
    {
        let (t, next) = next_token(input, &chars, i);
        proof {
            lemma_step_advances(chars@, i as int);
        }
        let ghost before = out@;
        match t {
            Some(tok) => {
                out.push(tok);
                assert(views(out@) =~= views(before) + seq![tok@]);
            },
            None => {},
        }
        assert(views(out@) + lex_from(input@, next as int) =~= views(before) + lex_from(
            input@,
            i as int,
        ));
        i = next;
    }
    assert(views(out@) =~= views(out@) + lex_from(input@, i as int));
    out
}

} // verus!
