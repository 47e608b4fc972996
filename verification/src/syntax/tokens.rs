//! The token vocabulary: the closed set of lexical categories and the
//! classification of a piece of text into one of them.
//!
//! Classification is a pure function of the text. Its specification-level
//! form is `token_of`; every executable classifier is proved to return
//! exactly that.

use vstd::prelude::*;

verus! {

/// A single whitespace separator.
#[derive(Debug, PartialEq, Eq, Structural, Clone, Copy)]
pub enum Whitespace {
    Invalid,
    Newline,
    Space,
    Tab,
}

/// An arithmetic, comparison or grouping operator.
#[derive(Debug, PartialEq, Eq, Structural, Clone, Copy)]
pub enum Operator {
    Add,
    Divide,
    Eq,
    Gt,
    GtEq,
    Invalid,
    Lt,
    LtEq,
    Modulo,
    Multiply,
    NotEq,
    ParenClose,
    ParenOpen,
    Subtract,
}

/// A statement separator: punctuation, whitespace or an operator.
#[derive(Debug, PartialEq, Eq, Structural, Clone, Copy)]
pub enum Separator {
    Comma,
    Invalid,
    Operator(Operator),
    Semicolon,
    Whitespace(Whitespace),
}

/// A reserved word of the dialect.
#[derive(Debug, PartialEq, Eq, Structural, Clone, Copy)]
pub enum Keyword {
    And,
    As,
    Begin,
    Between,
    BigInt,
    Bool,
    By,
    Commit,
    Create,
    Database,
    Delete,
    Distinct,
    Drop,
    False,
    From,
    In,
    Index,
    Insert,
    Int,
    Invalid,
    Key,
    Like,
    Limit,
    Not,
    Null,
    Or,
    Order,
    Primary,
    Rollback,
    Select,
    SetKw,
    Table,
    Transaction,
    True,
    Unique,
    Unsigned,
    Update,
    Values,
    Varchar,
    Where,
}

/// A classified lexical unit.
#[derive(Debug, PartialEq)]
pub enum Token {
    Keyword(Keyword),
    Identifier(String),
    Separator(Separator),
    String(String),
    Number(String),
}

/// The mathematical shape of a token: payloads are character sequences.
pub enum TokenModel {
    Keyword(Keyword),
    Identifier(Seq<char>),
    Separator(Separator),
    StrLit(Seq<char>),
    Number(Seq<char>),
}

impl View for Token {
    type V = TokenModel;

    open spec fn view(&self) -> TokenModel {
        match self {
            Token::Keyword(k) => TokenModel::Keyword(*k),
            Token::Identifier(s) => TokenModel::Identifier(s@),
            Token::Separator(s) => TokenModel::Separator(*s),
            Token::String(s) => TokenModel::StrLit(s@),
            Token::Number(s) => TokenModel::Number(s@),
        }
    }
}

/// ASCII upper-casing of one character; anything outside `a`..`z` is
/// unchanged. Keyword matching is case-insensitive through this map.
pub open spec fn upper_char(c: char) -> char {
    if c == 'a' {
        'A'
    } else if c == 'b' {
        'B'
    } else if c == 'c' {
        'C'
    } else if c == 'd' {
        'D'
    } else if c == 'e' {
        'E'
    } else if c == 'f' {
        'F'
    } else if c == 'g' {
        'G'
    } else if c == 'h' {
        'H'
    } else if c == 'i' {
        'I'
    } else if c == 'j' {
        'J'
    } else if c == 'k' {
        'K'
    } else if c == 'l' {
        'L'
    } else if c == 'm' {
        'M'
    } else if c == 'n' {
        'N'
    } else if c == 'o' {
        'O'
    } else if c == 'p' {
        'P'
    } else if c == 'q' {
        'Q'
    } else if c == 'r' {
        'R'
    } else if c == 's' {
        'S'
    } else if c == 't' {
        'T'
    } else if c == 'u' {
        'U'
    } else if c == 'v' {
        'V'
    } else if c == 'w' {
        'W'
    } else if c == 'x' {
        'X'
    } else if c == 'y' {
        'Y'
    } else if c == 'z' {
        'Z'
    } else {
        c
    }
}

/// The text with every character upper-cased.
pub open spec fn upper_seq(s: Seq<char>) -> Seq<char> {
    Seq::new(s.len(), |i: int| upper_char(s[i]))
}

/// Is `c` a decimal digit?
pub open spec fn is_digit(c: char) -> bool {
    c == '0' || c == '1' || c == '2' || c == '3' || c == '4' || c == '5' || c == '6' || c == '7'
        || c == '8' || c == '9'
}

/// Is `c` a decimal digit, mirroring `is_digit`?
pub fn is_digit_char(c: char) -> (r: bool)
    ensures
        r == is_digit(c),
{
    match c {
        '0' => true,
        '1' => true,
        '2' => true,
        '3' => true,
        '4' => true,
        '5' => true,
        '6' => true,
        '7' => true,
        '8' => true,
        '9' => true,
        _ => false,
    }
}

/// The operator denoted by one character, or `Invalid`.
pub open spec fn operator_of_char(c: char) -> Operator {
    if c == '+' {
        Operator::Add
    } else if c == '/' {
        Operator::Divide
    } else if c == '=' {
        Operator::Eq
    } else if c == '>' {
        Operator::Gt
    } else if c == '<' {
        Operator::Lt
    } else if c == '%' {
        Operator::Modulo
    } else if c == '*' {
        Operator::Multiply
    } else if c == ')' {
        Operator::ParenClose
    } else if c == '(' {
        Operator::ParenOpen
    } else if c == '-' {
        Operator::Subtract
    } else {
        Operator::Invalid
    }
}

/// The operator denoted by a piece of text: the single-character
/// operators, and the two-character comparisons `>=`, `<=` and `!=`.
pub open spec fn operator_of(s: Seq<char>) -> Operator {
    if s.len() == 1 {
        operator_of_char(s[0])
    } else if s.len() == 2 {
        if s[0] == '>' && s[1] == '=' {
            Operator::GtEq
        } else if s[0] == '<' && s[1] == '=' {
            Operator::LtEq
        } else if s[0] == '!' && s[1] == '=' {
            Operator::NotEq
        } else {
            Operator::Invalid
        }
    } else {
        Operator::Invalid
    }
}

/// The whitespace denoted by a piece of text: one space, tab or newline.
pub open spec fn whitespace_of(s: Seq<char>) -> Whitespace {
    if s.len() == 1 {
        if s[0] == ' ' {
            Whitespace::Space
        } else if s[0] == '\t' {
            Whitespace::Tab
        } else if s[0] == '\n' {
            Whitespace::Newline
        } else {
            Whitespace::Invalid
        }
    } else {
        Whitespace::Invalid
    }
}

/// The separator denoted by a piece of text: `;` and `,` first, then
/// whitespace, then operators.
pub open spec fn separator_of(s: Seq<char>) -> Separator {
    if s.len() == 1 && s[0] == ';' {
        Separator::Semicolon
    } else if s.len() == 1 && s[0] == ',' {
        Separator::Comma
    } else if whitespace_of(s) != Whitespace::Invalid {
        Separator::Whitespace(whitespace_of(s))
    } else if operator_of(s) != Operator::Invalid {
        Separator::Operator(operator_of(s))
    } else {
        Separator::Invalid
    }
}

/// The keyword denoted by a piece of text, matched case-insensitively,
/// or `Invalid`.
pub open spec fn keyword_of(s: Seq<char>) -> Keyword {
    let u = upper_seq(s);
    if u == "AND"@ {
        Keyword::And
    } else if u == "AS"@ {
        Keyword::As
    } else if u == "BEGIN"@ {
        Keyword::Begin
    } else if u == "BETWEEN"@ {
        Keyword::Between
    } else if u == "BIGINT"@ {
        Keyword::BigInt
    } else if u == "BOOL"@ {
        Keyword::Bool
    } else if u == "BY"@ {
        Keyword::By
    } else if u == "COMMIT"@ {
        Keyword::Commit
    } else if u == "CREATE"@ {
        Keyword::Create
    } else if u == "DATABASE"@ {
        Keyword::Database
    } else if u == "DELETE"@ {
        Keyword::Delete
    } else if u == "DISTINCT"@ {
        Keyword::Distinct
    } else if u == "DROP"@ {
        Keyword::Drop
    } else if u == "FALSE"@ {
        Keyword::False
    } else if u == "FROM"@ {
        Keyword::From
    } else if u == "IN"@ {
        Keyword::In
    } else if u == "INDEX"@ {
        Keyword::Index
    } else if u == "INSERT"@ {
        Keyword::Insert
    } else if u == "INT"@ {
        Keyword::Int
    } else if u == "KEY"@ {
        Keyword::Key
    } else if u == "LIKE"@ {
        Keyword::Like
    } else if u == "LIMIT"@ {
        Keyword::Limit
    } else if u == "NOT"@ {
        Keyword::Not
    } else if u == "NULL"@ {
        Keyword::Null
    } else if u == "OR"@ {
        Keyword::Or
    } else if u == "ORDER"@ {
        Keyword::Order
    } else if u == "PRIMARY"@ {
        Keyword::Primary
    } else if u == "ROLLBACK"@ {
        Keyword::Rollback
    } else if u == "SELECT"@ {
        Keyword::Select
    } else if u == "SET"@ {
        Keyword::SetKw
    } else if u == "TABLE"@ {
        Keyword::Table
    } else if u == "TRANSACTION"@ {
        Keyword::Transaction
    } else if u == "TRUE"@ {
        Keyword::True
    } else if u == "UNIQUE"@ {
        Keyword::Unique
    } else if u == "UNSIGNED"@ {
        Keyword::Unsigned
    } else if u == "UPDATE"@ {
        Keyword::Update
    } else if u == "VALUES"@ {
        Keyword::Values
    } else if u == "VARCHAR"@ {
        Keyword::Varchar
    } else if u == "WHERE"@ {
        Keyword::Where
    } else {
        Keyword::Invalid
    }
}

/// The category of a piece of text: separators take priority, then
/// keywords; everything unclassified is an identifier.
pub open spec fn token_of(s: Seq<char>) -> TokenModel {
    if separator_of(s) != Separator::Invalid {
        TokenModel::Separator(separator_of(s))
    } else if keyword_of(s) != Keyword::Invalid {
        TokenModel::Keyword(keyword_of(s))
    } else {
        TokenModel::Identifier(s)
    }
}

/// ASCII upper-casing of one character, mirroring `upper_char`.
pub fn to_upper(c: char) -> (r: char)
    ensures
        r == upper_char(c),
{
    match c {
        'a' => 'A',
        'b' => 'B',
        'c' => 'C',
        'd' => 'D',
        'e' => 'E',
        'f' => 'F',
        'g' => 'G',
        'h' => 'H',
        'i' => 'I',
        'j' => 'J',
        'k' => 'K',
        'l' => 'L',
        'm' => 'M',
        'n' => 'N',
        'o' => 'O',
        'p' => 'P',
        'q' => 'Q',
        'r' => 'R',
        's' => 'S',
        't' => 'T',
        'u' => 'U',
        'v' => 'V',
        'w' => 'W',
        'x' => 'X',
        'y' => 'Y',
        'z' => 'Z',
        _ => c,
    }
}

/// Does the text equal `word` after upper-casing? `word` is expected to
/// be given in upper case already.
fn matches_upper(s: &Vec<char>, word: &str) -> (r: bool)
    ensures
        r == (upper_seq(s@) == word@),
{
    let n = word.unicode_len();
    if s.len() != n {
        proof {
            assert(upper_seq(s@).len() == s@.len());
        }
        return false;
    }
    let mut i: usize = 0;
    while i < n
        invariant
            i <= n,
            n == word@.len(),
            n == s@.len(),
            forall|j: int| 0 <= j < i ==> upper_char(s@[j]) == word@[j],
        decreases n - i,
    {
        let c = to_upper(s[i]);
        let w = word.get_char(i);
        if c != w {
            proof {
                assert(upper_seq(s@)[i as int] != word@[i as int]);
            }
            return false;
        }
        i = i + 1;
    }
    proof {
        assert(upper_seq(s@) =~= word@);
    }
    true
}

/// Classifies text as a keyword, mirroring `keyword_of`.
pub fn keyword_from_chars(s: &Vec<char>) -> (k: Keyword)
    ensures
        k == keyword_of(s@),
{
    if matches_upper(s, "AND") {
        Keyword::And
    } else if matches_upper(s, "AS") {
        Keyword::As
    } else if matches_upper(s, "BEGIN") {
        Keyword::Begin
    } else if matches_upper(s, "BETWEEN") {
        Keyword::Between
    } else if matches_upper(s, "BIGINT") {
        Keyword::BigInt
    } else if matches_upper(s, "BOOL") {
        Keyword::Bool
    } else if matches_upper(s, "BY") {
        Keyword::By
    } else if matches_upper(s, "COMMIT") {
        Keyword::Commit
    } else if matches_upper(s, "CREATE") {
        Keyword::Create
    } else if matches_upper(s, "DATABASE") {
        Keyword::Database
    } else if matches_upper(s, "DELETE") {
        Keyword::Delete
    } else if matches_upper(s, "DISTINCT") {
        Keyword::Distinct
    } else if matches_upper(s, "DROP") {
        Keyword::Drop
    } else if matches_upper(s, "FALSE") {
        Keyword::False
    } else if matches_upper(s, "FROM") {
        Keyword::From
    } else if matches_upper(s, "IN") {
        Keyword::In
    } else if matches_upper(s, "INDEX") {
        Keyword::Index
    } else if matches_upper(s, "INSERT") {
        Keyword::Insert
    } else if matches_upper(s, "INT") {
        Keyword::Int
    } else if matches_upper(s, "KEY") {
        Keyword::Key
    } else if matches_upper(s, "LIKE") {
        Keyword::Like
    } else if matches_upper(s, "LIMIT") {
        Keyword::Limit
    } else if matches_upper(s, "NOT") {
        Keyword::Not
    } else if matches_upper(s, "NULL") {
        Keyword::Null
    } else if matches_upper(s, "OR") {
        Keyword::Or
    } else if matches_upper(s, "ORDER") {
        Keyword::Order
    } else if matches_upper(s, "PRIMARY") {
        Keyword::Primary
    } else if matches_upper(s, "ROLLBACK") {
        Keyword::Rollback
    } else if matches_upper(s, "SELECT") {
        Keyword::Select
    } else if matches_upper(s, "SET") {
        Keyword::SetKw
    } else if matches_upper(s, "TABLE") {
        Keyword::Table
    } else if matches_upper(s, "TRANSACTION") {
        Keyword::Transaction
    } else if matches_upper(s, "TRUE") {
        Keyword::True
    } else if matches_upper(s, "UNIQUE") {
        Keyword::Unique
    } else if matches_upper(s, "UNSIGNED") {
        Keyword::Unsigned
    } else if matches_upper(s, "UPDATE") {
        Keyword::Update
    } else if matches_upper(s, "VALUES") {
        Keyword::Values
    } else if matches_upper(s, "VARCHAR") {
        Keyword::Varchar
    } else if matches_upper(s, "WHERE") {
        Keyword::Where
    } else {
        Keyword::Invalid
    }
}

/// Classifies one character as an operator, mirroring `operator_of_char`.
pub fn operator_from_char(c: char) -> (op: Operator)
    ensures
        op == operator_of_char(c),
{
    match c {
        '+' => Operator::Add,
        '/' => Operator::Divide,
        '=' => Operator::Eq,
        '>' => Operator::Gt,
        '<' => Operator::Lt,
        '%' => Operator::Modulo,
        '*' => Operator::Multiply,
        ')' => Operator::ParenClose,
        '(' => Operator::ParenOpen,
        '-' => Operator::Subtract,
        _ => Operator::Invalid,
    }
}

/// Classifies text as an operator, mirroring `operator_of`.
pub fn operator_from_chars(s: &Vec<char>) -> (op: Operator)
    ensures
        op == operator_of(s@),
{
    if s.len() == 1 {
        operator_from_char(s[0])
    } else if s.len() == 2 {
        let a = s[0];
        let b = s[1];
        if a == '>' && b == '=' {
            Operator::GtEq
        } else if a == '<' && b == '=' {
            Operator::LtEq
        } else if a == '!' && b == '=' {
            Operator::NotEq
        } else {
            Operator::Invalid
        }
    } else {
        Operator::Invalid
    }
}

/// Classifies text as whitespace, mirroring `whitespace_of`.
pub fn whitespace_from_chars(s: &Vec<char>) -> (w: Whitespace)
    ensures
        w == whitespace_of(s@),
{
    if s.len() == 1 {
        match s[0] {
            ' ' => Whitespace::Space,
            '\t' => Whitespace::Tab,
            '\n' => Whitespace::Newline,
            _ => Whitespace::Invalid,
        }
    } else {
        Whitespace::Invalid
    }
}

/// Classifies text as a separator, mirroring `separator_of`.
pub fn separator_from_chars(s: &Vec<char>) -> (sep: Separator)
    ensures
        sep == separator_of(s@),
{
    if s.len() == 1 && s[0] == ';' {
        Separator::Semicolon
    } else if s.len() == 1 && s[0] == ',' {
        Separator::Comma
    } else {
        let w = whitespace_from_chars(s);
        if !matches!(w, Whitespace::Invalid) {
            Separator::Whitespace(w)
        } else {
            let op = operator_from_chars(s);
            if !matches!(op, Operator::Invalid) {
                Separator::Operator(op)
            } else {
                Separator::Invalid
            }
        }
    }
}

/// Builds an owned string out of a character buffer.
pub fn chars_to_string(s: &Vec<char>) -> (r: String)
    ensures
        r@ == s@,
{
    let mut out = String::new();
    let mut i: usize = 0;
    while i < s.len()
        invariant
            i <= s@.len(),
            out@ == s@.subrange(0, i as int),
        decreases s@.len() - i,
    {
        push_char(&mut out, s[i]);
        proof {
            assert(out@ =~= s@.subrange(0, i + 1));
        }
        i = i + 1;
    }
    proof {
        assert(out@ =~= s@);
    }
    out
}

/// Relies on `String::push`: appends exactly the given character.
#[verifier::external_body]
fn push_char(s: &mut String, c: char)
    ensures
        final(s)@ == old(s)@.push(c),
{
    s.push(c);
}

/// Classifies a whole buffer, mirroring `token_of`.
pub fn token_from_chars(s: &Vec<char>) -> (t: Token)
    ensures
        t@ == token_of(s@),
{
    let sep = separator_from_chars(s);
    if !matches!(sep, Separator::Invalid) {
        Token::Separator(sep)
    } else {
        let kw = keyword_from_chars(s);
        if !matches!(kw, Keyword::Invalid) {
            Token::Keyword(kw)
        } else {
            Token::Identifier(chars_to_string(s))
        }
    }
}

impl<'a> From<&'a str> for Keyword {
    /// Classifies text as a keyword, case-insensitively.
    fn from(val: &'a str) -> (k: Keyword) {
        let chars = str_to_chars(val);
        keyword_from_chars(&chars)
    }
}

impl<'a> vstd::std_specs::convert::FromSpecImpl<&'a str> for Keyword {
    open spec fn obeys_from_spec() -> bool {
        true
    }

    open spec fn from_spec(val: &'a str) -> Keyword {
        keyword_of(val@)
    }
}

impl<'a> From<&'a str> for Operator {
    /// Classifies text as an operator.
    fn from(val: &'a str) -> (op: Operator) {
        let chars = str_to_chars(val);
        operator_from_chars(&chars)
    }
}

impl<'a> vstd::std_specs::convert::FromSpecImpl<&'a str> for Operator {
    open spec fn obeys_from_spec() -> bool {
        true
    }

    open spec fn from_spec(val: &'a str) -> Operator {
        operator_of(val@)
    }
}

impl<'a> From<&'a str> for Whitespace {
    /// Classifies text as whitespace.
    fn from(val: &'a str) -> (w: Whitespace) {
        let chars = str_to_chars(val);
        whitespace_from_chars(&chars)
    }
}

impl<'a> vstd::std_specs::convert::FromSpecImpl<&'a str> for Whitespace {
    open spec fn obeys_from_spec() -> bool {
        true
    }

    open spec fn from_spec(val: &'a str) -> Whitespace {
        whitespace_of(val@)
    }
}

impl<'a> From<&'a str> for Separator {
    /// Classifies text as a separator.
    fn from(val: &'a str) -> (sep: Separator) {
        let chars = str_to_chars(val);
        separator_from_chars(&chars)
    }
}

impl<'a> vstd::std_specs::convert::FromSpecImpl<&'a str> for Separator {
    open spec fn obeys_from_spec() -> bool {
        true
    }

    open spec fn from_spec(val: &'a str) -> Separator {
        separator_of(val@)
    }
}

/// Copies the characters of a string slice into a vector.
pub fn str_to_chars(s: &str) -> (r: Vec<char>)
    ensures
        r@ == s@,
{
    let n = s.unicode_len();
    let mut v: Vec<char> = Vec::new();
    let mut i: usize = 0;
    while i < n
        invariant
            i <= n,
            n == s@.len(),
            v@ == s@.subrange(0, i as int),
        decreases n - i,
    {
        v.push(s.get_char(i));
        proof {
            assert(v@ =~= s@.subrange(0, i + 1));
        }
        i = i + 1;
    }
    proof {
        assert(v@ =~= s@);
    }
    v
}

} // verus!
