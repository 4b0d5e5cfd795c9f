//! The token model: the immutable value a scan produces.
//!
//! A token records its kind, the exact source slice it was scanned from
//! (the lexeme), an optional decoded literal payload, and source-location
//! metadata: a 1-based line number and the half-open byte range
//! `[start, end)` within the source buffer.

use vstd::prelude::*;

verus! {

/// The closed set of token kinds.
#[derive(Clone, Copy, PartialEq, Eq, Debug, Structural)]
pub enum TokenType {
    LeftParen,
    RightParen,
    LeftSq,
    RightSq,
    LeftCurly,
    RightCurly,
    LeftAng,
    RightAng,
    Comma,
    Dot,
    Minus,
    Plus,
    Semicolon,
    Slash,
    Star,
    Caret,
    Ex,
    ExEq,
    Eq,
    EqEq,
    Gr,
    GrEq,
    Ls,
    LsEq,
    Id,
    Str,
    Num,
    And,
    Struct,
    Dimension,
    Unit,
    For,
    If,
    Or,
    While,
    Print,
    Return,
    Slf,
    True,
    False,
    Eof,
}

/// Mathematical model of a token: the same fields over `Seq` and `int`.
pub struct SpecToken {
    pub t_type: TokenType,
    pub lexeme: Seq<u8>,
    pub literal: Option<Seq<u8>>,
    pub line: int,
    pub start: int,
    pub end: int,
}

/// One scanned token.  The lexeme holds a copy of the source bytes
/// `buffer[start..end]`; `literal` is populated only for string literals
/// (the interior with the quotes stripped), numbers and identifiers
/// (both equal to the lexeme).
pub struct Token {
    pub t_type: TokenType,
    pub lexeme: Vec<u8>,
    pub literal: Option<Vec<u8>>,
    pub line: usize,
    pub start: usize,
    pub end: usize,
}

impl View for Token {
    type V = SpecToken;

    open spec fn view(&self) -> SpecToken {
        SpecToken {
            t_type: self.t_type,
            lexeme: self.lexeme@,
            literal: match self.literal {
                Some(v) => Some(v@),
                None => None,
            },
            line: self.line as int,
            start: self.start as int,
            end: self.end as int,
        }
    }
}

/// What `String::from_utf8_lossy` returns for the given bytes: a function
/// of the bytes alone.
pub uninterp spec fn lossy_of(bytes: Seq<u8>) -> Seq<char>;

/// Relies on `alloc::string::String::from_utf8_lossy`: the result depends
/// on the bytes alone; bytes that are valid UTF-8 decode to exactly the
/// characters they encode, and an empty input gives an empty string.
#[verifier::external_body]
pub(crate) fn render_bytes(bytes: &Vec<u8>) -> (r: String)
    ensures
        r@ == lossy_of(bytes@),
        vstd::utf8::valid_utf8(bytes@) ==> r@ == vstd::utf8::decode_utf8(bytes@),
        bytes@.len() == 0 ==> r@.len() == 0,
{
    String::from_utf8_lossy(bytes).into_owned()
}

/// The rendering of one decimal digit.
pub open spec fn spec_digit(d: int) -> Seq<char> {
    if d == 0 {
        "0"@
    } else if d == 1 {
        "1"@
    } else if d == 2 {
        "2"@
    } else if d == 3 {
        "3"@
    } else if d == 4 {
        "4"@
    } else if d == 5 {
        "5"@
    } else if d == 6 {
        "6"@
    } else if d == 7 {
        "7"@
    } else if d == 8 {
        "8"@
    } else if d == 9 {
        "9"@
    } else {
        Seq::empty()
    }
}

/// The decimal rendering of `n`, most significant digit first.
pub open spec fn spec_decimal(n: int) -> Seq<char>
    decreases n,
    when n >= 0
{
    if n < 10 {
        spec_digit(n)
    } else {
        spec_decimal(n / 10) + spec_digit(n % 10)
    }
}

fn digit_str(d: usize) -> (r: &'static str)
    requires
        d < 10,
    ensures
        r@ == spec_digit(d as int),
{
    if d == 0 {
        "0"
    } else if d == 1 {
        "1"
    } else if d == 2 {
        "2"
    } else if d == 3 {
        "3"
    } else if d == 4 {
        "4"
    } else if d == 5 {
        "5"
    } else if d == 6 {
        "6"
    } else if d == 7 {
        "7"
    } else if d == 8 {
        "8"
    } else {
        "9"
    }
}

/// Render an offset or line number in decimal.
pub fn to_decimal(n: usize) -> (r: String)
    ensures
        r@ == spec_decimal(n as int),
    decreases n,
{
    if n < 10 {
        String::from_str(digit_str(n))
    } else {
        let rest = to_decimal(n / 10);
        rest.concat(digit_str(n % 10))
    }
}

/// The name of a token kind, as diagnostic output shows it.
pub open spec fn spec_kind_name(t: TokenType) -> Seq<char> {
    match t {
        TokenType::LeftParen => "LeftParen"@,
        TokenType::RightParen => "RightParen"@,
        TokenType::LeftSq => "LeftSq"@,
        TokenType::RightSq => "RightSq"@,
        TokenType::LeftCurly => "LeftCurly"@,
        TokenType::RightCurly => "RightCurly"@,
        TokenType::LeftAng => "LeftAng"@,
        TokenType::RightAng => "RightAng"@,
        TokenType::Comma => "Comma"@,
        TokenType::Dot => "Dot"@,
        TokenType::Minus => "Minus"@,
        TokenType::Plus => "Plus"@,
        TokenType::Semicolon => "Semicolon"@,
        TokenType::Slash => "Slash"@,
        TokenType::Star => "Star"@,
        TokenType::Caret => "Caret"@,
        TokenType::Ex => "Ex"@,
        TokenType::ExEq => "ExEq"@,
        TokenType::Eq => "Eq"@,
        TokenType::EqEq => "EqEq"@,
        TokenType::Gr => "Gr"@,
        TokenType::GrEq => "GrEq"@,
        TokenType::Ls => "Ls"@,
        TokenType::LsEq => "LsEq"@,
        TokenType::Id => "Id"@,
        TokenType::Str => "Str"@,
        TokenType::Num => "Num"@,
        TokenType::And => "And"@,
        TokenType::Struct => "Struct"@,
        TokenType::Dimension => "Dimension"@,
        TokenType::Unit => "Unit"@,
        TokenType::For => "For"@,
        TokenType::If => "If"@,
        TokenType::Or => "Or"@,
        TokenType::While => "While"@,
        TokenType::Print => "Print"@,
        TokenType::Return => "Return"@,
        TokenType::Slf => "Slf"@,
        TokenType::True => "True"@,
        TokenType::False => "False"@,
        TokenType::Eof => "Eof"@,
    }
}

/// Runtime counterpart of [`spec_kind_name`].
pub fn kind_name(t: TokenType) -> (r: &'static str)
    ensures
        r@ == spec_kind_name(t),
{
    match t {
        TokenType::LeftParen => "LeftParen",
        TokenType::RightParen => "RightParen",
        TokenType::LeftSq => "LeftSq",
        TokenType::RightSq => "RightSq",
        TokenType::LeftCurly => "LeftCurly",
        TokenType::RightCurly => "RightCurly",
        TokenType::LeftAng => "LeftAng",
        TokenType::RightAng => "RightAng",
        TokenType::Comma => "Comma",
        TokenType::Dot => "Dot",
        TokenType::Minus => "Minus",
        TokenType::Plus => "Plus",
        TokenType::Semicolon => "Semicolon",
        TokenType::Slash => "Slash",
        TokenType::Star => "Star",
        TokenType::Caret => "Caret",
        TokenType::Ex => "Ex",
        TokenType::ExEq => "ExEq",
        TokenType::Eq => "Eq",
        TokenType::EqEq => "EqEq",
        TokenType::Gr => "Gr",
        TokenType::GrEq => "GrEq",
        TokenType::Ls => "Ls",
        TokenType::LsEq => "LsEq",
        TokenType::Id => "Id",
        TokenType::Str => "Str",
        TokenType::Num => "Num",
        TokenType::And => "And",
        TokenType::Struct => "Struct",
        TokenType::Dimension => "Dimension",
        TokenType::Unit => "Unit",
        TokenType::For => "For",
        TokenType::If => "If",
        TokenType::Or => "Or",
        TokenType::While => "While",
        TokenType::Print => "Print",
        TokenType::Return => "Return",
        TokenType::Slf => "Slf",
        TokenType::True => "True",
        TokenType::False => "False",
        TokenType::Eof => "Eof",
    }
}

/// The diagnostic rendering of a token: kind, lexeme, literal when
/// present, then line, start and end in decimal, separated by spaces.
pub open spec fn spec_token_display(t: SpecToken) -> Seq<char> {
    spec_kind_name(t.t_type) + " "@ + lossy_of(t.lexeme) + (match t.literal {
        Some(l) => " "@ + lossy_of(l),
        None => Seq::<char>::empty(),
    }) + " "@ + spec_decimal(t.line) + " "@ + spec_decimal(t.start) + " "@ + spec_decimal(t.end)
}

impl Token {
    /// Construction stores the given fields unchanged; it cannot fail.
    pub fn new(
        t_type: TokenType,
        lexeme: Vec<u8>,
        literal: Option<Vec<u8>>,
        line: usize,
        start: usize,
        end: usize,
    ) -> (r: Token)
        ensures
            r@ == (SpecToken {
                t_type,
                lexeme: lexeme@,
                literal: match literal {
                    Some(v) => Some(v@),
                    None => None,
                },
                line: line as int,
                start: start as int,
                end: end as int,
            }),
    {
        Token { t_type, lexeme, literal, line, start, end }
    }

    /// The diagnostic rendering: used only for debug output.
    pub fn to_string(&self) -> (r: String)
        ensures
            r@ == spec_token_display(self@),
    {
        let mut s = String::from_str(kind_name(self.t_type));
        s.append(" ");
        let lexeme = render_bytes(&self.lexeme);
        s.append(lexeme.as_str());
        match &self.literal {
            Some(l) => {
                s.append(" ");
                let lit = render_bytes(l);
                s.append(lit.as_str());
            },
            None => {},
        }
        s.append(" ");
        let line = to_decimal(self.line);
        s.append(line.as_str());
        s.append(" ");
        let start = to_decimal(self.start);
        s.append(start.as_str());
        s.append(" ");
        let end = to_decimal(self.end);
        s.append(end.as_str());
        proof {
            assert(s@ =~= spec_token_display(self@));
        }
        s
    }
}

} // verus!
