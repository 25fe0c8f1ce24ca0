//! Error values for the scanner and the parser, and the line-tagged
//! diagnostic text both report through: `[line N] Error<WHERE>: <MESSAGE>`.

use crate::token::spec_kind_name;
use crate::token::spec_token_describe;
use crate::token::kind_name;
use crate::token::Token;
use crate::token::TokenType;
use crate::token::TokenView;
use vstd::prelude::*;
use vstd::string::StringExecFns;

verus! {

/// Relies on `String::push` of std: it appends exactly the one character
/// given, which vstd leaves unspecified.
pub assume_specification[ String::push ](s: &mut String, ch: char)
    ensures
        final(s)@ == old(s)@.push(ch),
;

/// Specification-level value of a [`LoxErrors`]: payloads replaced by
/// their views.
pub enum LoxErrorView {
    InvalidCharacter(char),
    UnterminatedString(int),
    UnexpectedTokenTypeFound(TokenType),
    PrimaryExprError(TokenView),
    ParseError(TokenView),
}

/// The closed set of failures the scanner and the parser can return.
///
/// Scan-time: an invalid character, carrying the offending character, and
/// an unterminated string literal, carrying the line on which the string
/// began. Parse-time: a token of an unexpected kind where a specific kind
/// was demanded, carrying the demanded kind; no valid start of a primary
/// expression, carrying the offending token; and a generic parse failure,
/// also carrying the offending token.
#[derive(Debug)]
pub enum LoxErrors {
    InvalidCharacter(char),
    UnterminatedString { line: usize },
    UnexpectedTokenTypeFound(TokenType),
    PrimaryExprError(Token),
    ParseError(Token),
}

impl View for LoxErrors {
    type V = LoxErrorView;

    open spec fn view(&self) -> LoxErrorView {
        match self {
            LoxErrors::InvalidCharacter(c) => LoxErrorView::InvalidCharacter(*c),
            LoxErrors::UnterminatedString { line } => LoxErrorView::UnterminatedString(
                *line as int,
            ),
            LoxErrors::UnexpectedTokenTypeFound(t) => LoxErrorView::UnexpectedTokenTypeFound(*t),
            LoxErrors::PrimaryExprError(t) => LoxErrorView::PrimaryExprError(t@),
            LoxErrors::ParseError(t) => LoxErrorView::ParseError(t@),
        }
    }
}

/// The human-readable description of each failure.
pub open spec fn spec_error_render(e: LoxErrorView) -> Seq<char> {
    match e {
        LoxErrorView::InvalidCharacter(c) => "Invalid character found while parsing: "@.push(c),
        LoxErrorView::UnterminatedString(line) => "String not terminated, began on line "@
            + decimal_digits(line as nat),
        LoxErrorView::UnexpectedTokenTypeFound(k) => "Unexpected token found: "@ + spec_kind_name(
            k,
        ),
        LoxErrorView::PrimaryExprError(t) => "Unexpected token found while parsing primary expr: "@
            + spec_token_describe(t),
        LoxErrorView::ParseError(t) => "Error while parsing: "@ + spec_token_describe(t),
    }
}

impl LoxErrors {
    /// Describes this failure, as [`spec_error_render`] says.
    pub fn render(&self) -> (r: String)
        ensures
            r@ == spec_error_render(self@),
    {
        match self {
            LoxErrors::InvalidCharacter(c) => {
                let mut r = "Invalid character found while parsing: ".to_owned();
                r.push(*c);
                r
            },
            LoxErrors::UnterminatedString { line } => {
                let mut r = "String not terminated, began on line ".to_owned();
                r.append(decimal_string(*line).as_str());
                r
            },
            LoxErrors::UnexpectedTokenTypeFound(k) => {
                let mut r = "Unexpected token found: ".to_owned();
                r.append(kind_name(*k));
                r
            },
            LoxErrors::PrimaryExprError(t) => {
                let mut r = "Unexpected token found while parsing primary expr: ".to_owned();
                r.append(t.render().as_str());
                r
            },
            LoxErrors::ParseError(t) => {
                let mut r = "Error while parsing: ".to_owned();
                r.append(t.render().as_str());
                r
            },
        }
    }
}

/// The decimal digit standing for `d`, for `d < 10`.
pub open spec fn digit_char_of(d: nat) -> char {
    if d == 0 {
        '0'
    } else if d == 1 {
        '1'
    } else if d == 2 {
        '2'
    } else if d == 3 {
        '3'
    } else if d == 4 {
        '4'
    } else if d == 5 {
        '5'
    } else if d == 6 {
        '6'
    } else if d == 7 {
        '7'
    } else if d == 8 {
        '8'
    } else {
        '9'
    }
}

/// The decimal numeral of `n`, most significant digit first.
pub open spec fn decimal_digits(n: nat) -> Seq<char>
    decreases n,
{
    if n < 10 {
        seq![digit_char_of(n)]
    } else {
        decimal_digits(n / 10) + seq![digit_char_of(n % 10)]
    }
}

fn digit_str(d: usize) -> (r: &'static str)
    requires
        d < 10,
    ensures
        r@ == seq![digit_char_of(d as nat)],
{
    match d {
        0 => {
            let s = "0";
            proof {
                reveal_strlit("0");
                assert(s@ =~= seq![digit_char_of(0)]);
            }
            s
        },
        1 => {
            let s = "1";
            proof {
                reveal_strlit("1");
                assert(s@ =~= seq![digit_char_of(1)]);
            }
            s
        },
        2 => {
            let s = "2";
            proof {
                reveal_strlit("2");
                assert(s@ =~= seq![digit_char_of(2)]);
            }
            s
        },
        3 => {
            let s = "3";
            proof {
                reveal_strlit("3");
                assert(s@ =~= seq![digit_char_of(3)]);
            }
            s
        },
        4 => {
            let s = "4";
            proof {
                reveal_strlit("4");
                assert(s@ =~= seq![digit_char_of(4)]);
            }
            s
        },
        5 => {
            let s = "5";
            proof {
                reveal_strlit("5");
                assert(s@ =~= seq![digit_char_of(5)]);
            }
            s
        },
        6 => {
            let s = "6";
            proof {
                reveal_strlit("6");
                assert(s@ =~= seq![digit_char_of(6)]);
            }
            s
        },
        7 => {
            let s = "7";
            proof {
                reveal_strlit("7");
                assert(s@ =~= seq![digit_char_of(7)]);
            }
            s
        },
        8 => {
            let s = "8";
            proof {
                reveal_strlit("8");
                assert(s@ =~= seq![digit_char_of(8)]);
            }
            s
        },
        _ => {
            let s = "9";
            proof {
                reveal_strlit("9");
                assert(s@ =~= seq![digit_char_of(d as nat)]);
            }
            s
        },
    }
}

/// The decimal numeral of `n` as an owned string.
pub fn decimal_string(n: usize) -> (r: String)
    ensures
        r@ == decimal_digits(n as nat),
    decreases n,
{
    if n < 10 {
        digit_str(n).to_owned()
    } else {
        let mut s = decimal_string(n / 10);
        s.append(digit_str(n % 10));
        s
    }
}

/// The diagnostic line `[line <line>] Error<where_>: <message>`.
pub open spec fn spec_report(line: nat, where_: Seq<char>, message: Seq<char>) -> Seq<char> {
    "[line "@ + decimal_digits(line) + "] Error"@ + where_ + ": "@ + message
}

/// Formats the shared line-tagged diagnostic text.
pub fn report(line: usize, where_: &str, message: &str) -> (r: String)
    ensures
        r@ == spec_report(line as nat, where_@, message@),
{
    let mut r = "[line ".to_owned();
    r.append(decimal_string(line).as_str());
    r.append("] Error");
    r.append(where_);
    r.append(": ");
    r.append(message);
    proof {
        assert(r@ =~= spec_report(line as nat, where_@, message@));
    }
    r
}

/// Formats a scan diagnostic, whose `<WHERE>` part is empty.
pub fn error(line: usize, message: &str) -> (r: String)
    ensures
        r@ == spec_report(line as nat, ""@, message@),
{
    report(line, "", message)
}

/// The diagnostic text a parse failure at `token` produces: located
/// `at end` for the end-of-file sentinel, else `at '<lexeme>'`.
pub open spec fn spec_parser_error(token: TokenView, message: Seq<char>) -> Seq<char> {
    if token.kind == TokenType::Eof {
        spec_report(token.line as nat, " at end"@, message)
    } else {
        spec_report(token.line as nat, " at '"@ + token.text + "'"@, message)
    }
}

/// Formats a parse diagnostic referencing `token`.
pub fn parser_error(token: &Token, message: &str) -> (r: String)
    ensures
        r@ == spec_parser_error(token@, message@),
{
    if token.token_type == TokenType::Eof {
        report(token.line, " at end", message)
    } else {
        let mut where_ = " at '".to_owned();
        where_.append(token.lexeme.as_str());
        where_.append("'");
        let r = report(token.line, where_.as_str(), message);
        proof {
            assert(r@ =~= spec_parser_error(token@, message@));
        }
        r
    }
}

} // verus!
