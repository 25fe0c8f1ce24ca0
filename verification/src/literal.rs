//! The literal payload a token or an expression leaf may carry, and the
//! normalized decimal numerals that stand for numeric constants.

use vstd::prelude::*;
use vstd::string::StrSliceExecFns;
use vstd::string::StringExecFns;

verus! {

/// Specification-level value of a [`LiteralValue`]: the payload with each
/// string replaced by its character sequence.
pub enum LiteralView {
    Boolean(bool),
    Null,
    Number(Seq<char>),
    Str(Seq<char>),
}

/// Tagged union over the primitive constant kinds.
///
/// A numeric constant is carried as its normalized decimal numeral: no
/// superfluous leading zeros in the whole part, no trailing zeros in the
/// fraction, and no decimal point when the fraction is empty. This is the
/// numeral a decimal rendering of the scanned value produces, so `007` is
/// carried as `7` and `45.670` as `45.67`.
#[derive(Debug)]
pub enum LiteralValue {
    Boolean(bool),
    Null,
    Number(String),
    Str(String),
}

impl View for LiteralValue {
    type V = LiteralView;

    open spec fn view(&self) -> LiteralView {
        match self {
            LiteralValue::Boolean(b) => LiteralView::Boolean(*b),
            LiteralValue::Null => LiteralView::Null,
            LiteralValue::Number(s) => LiteralView::Number(s@),
            LiteralValue::Str(s) => LiteralView::Str(s@),
        }
    }
}

impl Clone for LiteralValue {
    fn clone(&self) -> (r: Self)
        ensures
            r@ == self@,
    {
        match self {
            LiteralValue::Boolean(b) => LiteralValue::Boolean(*b),
            LiteralValue::Null => LiteralValue::Null,
            LiteralValue::Number(s) => LiteralValue::Number(s.clone()),
            LiteralValue::Str(s) => LiteralValue::Str(s.clone()),
        }
    }
}

/// How a literal renders inside an expression tree: booleans and the null
/// value by their keywords, numbers by their numeral, strings by their text.
pub open spec fn literal_render(v: LiteralView) -> Seq<char> {
    match v {
        LiteralView::Boolean(b) => if b {
            "true"@
        } else {
            "false"@
        },
        LiteralView::Null => "null"@,
        LiteralView::Number(s) => s,
        LiteralView::Str(s) => s,
    }
}

impl LiteralValue {
    /// The rendering of this literal, as [`literal_render`] describes it.
    pub fn render(&self) -> (r: String)
        ensures
            r@ == literal_render(self@),
    {
        match self {
            LiteralValue::Boolean(b) => {
                if *b {
                    "true".to_owned()
                } else {
                    "false".to_owned()
                }
            },
            LiteralValue::Null => "null".to_owned(),
            LiteralValue::Number(s) => s.clone(),
            LiteralValue::Str(s) => s.clone(),
        }
    }
}

/// Whether `c` is one of the ten decimal digits.
pub open spec fn is_digit_char(c: char) -> bool {
    '0' <= c && c <= '9'
}

/// The whole part of a numeral with superfluous leading zeros removed:
/// a single digit is kept even when it is `0`.
pub open spec fn strip_leading_zeros(s: Seq<char>) -> Seq<char>
    decreases s.len(),
{
    if s.len() > 1 && s[0] == '0' {
        strip_leading_zeros(s.skip(1))
    } else {
        s
    }
}

/// The fraction part of a numeral with its trailing zeros removed; a
/// fraction of zeros alone vanishes entirely.
pub open spec fn strip_trailing_zeros(s: Seq<char>) -> Seq<char>
    decreases s.len(),
{
    if s.len() > 0 && s[s.len() - 1] == '0' {
        strip_trailing_zeros(s.take(s.len() - 1))
    } else {
        s
    }
}

/// The normalized decimal numeral with whole part `whole` and fraction
/// `frac`: leading zeros of the whole part and trailing zeros of the
/// fraction go, and the decimal point goes with an empty fraction.
pub open spec fn normal_decimal(whole: Seq<char>, frac: Seq<char>) -> Seq<char> {
    let w = strip_leading_zeros(whole);
    let f = strip_trailing_zeros(frac);
    if f.len() == 0 {
        w
    } else {
        w + seq!['.'] + f
    }
}

proof fn lemma_strip_leading_at(s: Seq<char>, i: int)
    requires
        s.len() >= 1,
        0 <= i <= s.len() - 1,
        forall|j: int| 0 <= j < i ==> s[j] == '0',
        i == s.len() - 1 || s[i] != '0',
    ensures
        strip_leading_zeros(s) == s.skip(i),
    decreases i,
{
    if i == 0 {
        assert(s.skip(0) =~= s);
    } else {
        let t = s.skip(1);
        lemma_strip_leading_at(t, i - 1);
        assert(t.skip(i - 1) =~= s.skip(i));
    }
}

proof fn lemma_strip_trailing_at(s: Seq<char>, j: int)
    requires
        0 <= j <= s.len(),
        forall|k: int| j <= k < s.len() ==> s[k] == '0',
        j == 0 || s[j - 1] != '0',
    ensures
        strip_trailing_zeros(s) == s.take(j),
    decreases s.len(),
{
    if s.len() > 0 && s[s.len() - 1] == '0' {
        assert(j < s.len());
        let t = s.take(s.len() - 1);
        lemma_strip_trailing_at(t, j);
        assert(t.take(j) =~= s.take(j));
    } else {
        assert(j == s.len());
        assert(s.take(j) =~= s);
    }
}

/// Builds the normalized numeral [`normal_decimal`]`(whole@, frac@)` from a
/// whole part and a fraction part.
pub fn normal_number_string(whole: &str, frac: &str) -> (r: String)
    ensures
        r@ == normal_decimal(whole@, frac@),
{
    let wlen: usize = whole.unicode_len();
    let flen: usize = frac.unicode_len();
    let mut i: usize = 0;
    while i + 1 < wlen && whole.get_char(i) == '0'
        invariant
            0 <= i <= wlen,
            wlen == whole@.len(),
            i < wlen || wlen == 0,
            forall|j: int| 0 <= j < i ==> whole@[j] == '0',
        decreases wlen - i,
    {
        i = i + 1;
    }
    let mut j: usize = flen;
    while j > 0 && frac.get_char(j - 1) == '0'
        invariant
            0 <= j <= flen,
            flen == frac@.len(),
            forall|k: int| j <= k < flen ==> frac@[k] == '0',
        decreases j,
    {
        j = j - 1;
    }
    proof {
        if wlen >= 1 {
            lemma_strip_leading_at(whole@, i as int);
        }
        lemma_strip_trailing_at(frac@, j as int);
    }
    let mut r = whole.substring_char(i, wlen).to_owned();
    if j > 0 {
        r.append(".");
        r.append(frac.substring_char(0, j));
        proof {
            reveal_strlit(".");
            assert("."@ =~= seq!['.']);
            assert(whole@.subrange(i as int, wlen as int) =~= whole@.skip(i as int));
            assert(r@ =~= normal_decimal(whole@, frac@));
        }
    } else {
        proof {
            assert(whole@.subrange(i as int, wlen as int) =~= whole@.skip(i as int));
            assert(r@ =~= normal_decimal(whole@, frac@));
        }
    }
    r
}

} // verus!
