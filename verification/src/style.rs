//! Text style vocabulary: weights, slants and alignment.

use vstd::prelude::*;
use std::num::ParseIntError;
use std::str::FromStr;

verus! {

#[verifier::external_type_specification]
#[verifier::external_body]
pub struct ExParseIntError(std::num::ParseIntError);

/// Weight of a font, on the usual 1 to 1000 scale (not enforced).
#[derive(Debug, Clone, Copy, Eq, PartialEq, Hash, Structural)]
pub struct FontWeight(pub u16);

impl FontWeight {
    /// Weight 100.
    pub fn thin() -> (r: FontWeight)
        ensures
            r.0 == 100,
    {
        FontWeight(100)
    }

    /// Weight 200.
    pub fn extra_light() -> (r: FontWeight)
        ensures
            r.0 == 200,
    {
        FontWeight(200)
    }

    /// Weight 300.
    pub fn light() -> (r: FontWeight)
        ensures
            r.0 == 300,
    {
        FontWeight(300)
    }

    /// Weight 400.
    pub fn regular() -> (r: FontWeight)
        ensures
            r.0 == 400,
    {
        FontWeight(400)
    }

    /// Weight 400.
    pub fn normal() -> (r: FontWeight)
        ensures
            r.0 == 400,
    {
        FontWeight(400)
    }

    /// Weight 500.
    pub fn medium() -> (r: FontWeight)
        ensures
            r.0 == 500,
    {
        FontWeight(500)
    }

    /// Weight 600.
    pub fn semi_bold() -> (r: FontWeight)
        ensures
            r.0 == 600,
    {
        FontWeight(600)
    }

    /// Weight 700.
    pub fn bold() -> (r: FontWeight)
        ensures
            r.0 == 700,
    {
        FontWeight(700)
    }

    /// Weight 800.
    pub fn extra_bold() -> (r: FontWeight)
        ensures
            r.0 == 800,
    {
        FontWeight(800)
    }

    /// Weight 900.
    pub fn black() -> (r: FontWeight)
        ensures
            r.0 == 900,
    {
        FontWeight(900)
    }
}

impl Default for FontWeight {
    fn default() -> (r: FontWeight)
        ensures
            r == FontWeight(400),
    {
        FontWeight::normal()
    }
}

/// Value of a non-empty run of ASCII decimal digits, or `None` if `s` is empty
/// or holds another character.
pub open spec fn decimal_digits_value(s: Seq<char>) -> Option<int>
    decreases s.len(),
{
    if s.len() == 0 {
        None
    } else if !('0' <= s.last() && s.last() <= '9') {
        None
    } else if s.len() == 1 {
        Some(s.last() as int - '0' as int)
    } else {
        match decimal_digits_value(s.drop_last()) {
            Some(v) => Some(v * 10 + (s.last() as int - '0' as int)),
            None => None,
        }
    }
}

/// What `u16::from_str` accepts: an optional `+` followed by decimal digits
/// whose value fits in a `u16`.
pub open spec fn parse_u16_spec(s: Seq<char>) -> Option<u16> {
    let digits = if s.len() > 0 && s[0] == '+' { s.drop_first() } else { s };
    match decimal_digits_value(digits) {
        Some(v) => if v <= u16::MAX { Some(v as u16) } else { None },
        None => None,
    }
}

/// `<u16 as FromStr>::from_str`: decimal parsing in radix 10. An optional
/// leading `+` is accepted, then one or more ASCII digits; the value must fit
/// in a `u16`. Anything else is an error.
#[verifier::external_body]
fn parse_u16(s: &str) -> (r: Result<u16, ParseIntError>)
    ensures
        r is Ok <==> parse_u16_spec(s@) is Some,
        r matches Ok(v) ==> parse_u16_spec(s@) == Some(v),
{
    s.parse::<u16>()
}

/// `<str as PartialEq>::eq`: two strings are equal when they hold the same
/// characters.
#[verifier::external_body]
fn str_eq(a: &str, b: &str) -> (r: bool)
    ensures
        r == (a@ == b@),
{
    a == b
}

/// Named weights accepted by `FontWeight::from_str`, with their values.
pub open spec fn named_font_weight(s: Seq<char>) -> Option<u16> {
    if s == "thin"@ { Some(100u16) }
    else if s == "extra-light"@ { Some(200u16) }
    else if s == "light"@ { Some(300u16) }
    else if s == "regular"@ { Some(400u16) }
    else if s == "normal"@ { Some(400u16) }
    else if s == "medium"@ { Some(500u16) }
    else if s == "semi-bold"@ { Some(600u16) }
    else if s == "bold"@ { Some(700u16) }
    else if s == "extra-bold"@ { Some(800u16) }
    else if s == "black"@ { Some(900u16) }
    else { None }
}

/// The weight that `FontWeight::from_str` reads from `s`: a name, or else a
/// number.
pub open spec fn font_weight_spec(s: Seq<char>) -> Option<u16> {
    match named_font_weight(s) {
        Some(w) => Some(w),
        None => parse_u16_spec(s),
    }
}

/// Each weight name reads as the weight of the constant of that name: thin
/// 100, extra-light 200, light 300, regular and normal 400, medium 500,
/// semi-bold 600, bold 700, extra-bold 800, black 900.
pub proof fn lemma_weight_names()
    ensures
        font_weight_spec("thin"@) == Some(100u16),
        font_weight_spec("extra-light"@) == Some(200u16),
        font_weight_spec("light"@) == Some(300u16),
        font_weight_spec("regular"@) == Some(400u16),
        font_weight_spec("normal"@) == Some(400u16),
        font_weight_spec("medium"@) == Some(500u16),
        font_weight_spec("semi-bold"@) == Some(600u16),
        font_weight_spec("bold"@) == Some(700u16),
        font_weight_spec("extra-bold"@) == Some(800u16),
        font_weight_spec("black"@) == Some(900u16),
{
    reveal_strlit("thin");
    reveal_strlit("extra-light");
    reveal_strlit("light");
    reveal_strlit("regular");
    reveal_strlit("normal");
    reveal_strlit("medium");
    reveal_strlit("semi-bold");
    reveal_strlit("bold");
    reveal_strlit("extra-bold");
    reveal_strlit("black");
}

impl FromStr for FontWeight {
    type Err = ParseIntError;

    fn from_str(s: &str) -> (r: Result<Self, Self::Err>)
        ensures
            r is Ok <==> font_weight_spec(s@) is Some,
            r matches Ok(w) ==> font_weight_spec(s@) == Some(w.0),
            s@ == "thin"@ ==> (r is Ok && r->Ok_0.0 == 100),
            s@ == "extra-light"@ ==> (r is Ok && r->Ok_0.0 == 200),
            s@ == "light"@ ==> (r is Ok && r->Ok_0.0 == 300),
            s@ == "regular"@ ==> (r is Ok && r->Ok_0.0 == 400),
            s@ == "normal"@ ==> (r is Ok && r->Ok_0.0 == 400),
            s@ == "medium"@ ==> (r is Ok && r->Ok_0.0 == 500),
            s@ == "semi-bold"@ ==> (r is Ok && r->Ok_0.0 == 600),
            s@ == "bold"@ ==> (r is Ok && r->Ok_0.0 == 700),
            s@ == "extra-bold"@ ==> (r is Ok && r->Ok_0.0 == 800),
            s@ == "black"@ ==> (r is Ok && r->Ok_0.0 == 900),
    {
        FontWeight::parse(s)
    }
}

impl FontWeight {
    /// Parses a weight: one of the names `thin`, `extra-light`, `light`,
    /// `regular`, `normal`, `medium`, `semi-bold`, `bold`, `extra-bold`,
    /// `black`, or else a decimal number.
    pub fn parse(s: &str) -> (r: Result<FontWeight, ParseIntError>)
        ensures
            r is Ok <==> font_weight_spec(s@) is Some,
            r matches Ok(w) ==> font_weight_spec(s@) == Some(w.0),
            s@ == "thin"@ ==> (r is Ok && r->Ok_0.0 == 100),
            s@ == "extra-light"@ ==> (r is Ok && r->Ok_0.0 == 200),
            s@ == "light"@ ==> (r is Ok && r->Ok_0.0 == 300),
            s@ == "regular"@ ==> (r is Ok && r->Ok_0.0 == 400),
            s@ == "normal"@ ==> (r is Ok && r->Ok_0.0 == 400),
            s@ == "medium"@ ==> (r is Ok && r->Ok_0.0 == 500),
            s@ == "semi-bold"@ ==> (r is Ok && r->Ok_0.0 == 600),
            s@ == "bold"@ ==> (r is Ok && r->Ok_0.0 == 700),
            s@ == "extra-bold"@ ==> (r is Ok && r->Ok_0.0 == 800),
            s@ == "black"@ ==> (r is Ok && r->Ok_0.0 == 900),
    {
        proof {
            reveal_strlit("thin");
            reveal_strlit("extra-light");
            reveal_strlit("light");
            reveal_strlit("regular");
            reveal_strlit("normal");
            reveal_strlit("medium");
            reveal_strlit("semi-bold");
            reveal_strlit("bold");
            reveal_strlit("extra-bold");
            reveal_strlit("black");
        }
        if str_eq(s, "thin") {
            Ok(FontWeight::thin())
        } else if str_eq(s, "extra-light") {
            Ok(FontWeight::extra_light())
        } else if str_eq(s, "light") {
            Ok(FontWeight::light())
        } else if str_eq(s, "regular") {
            Ok(FontWeight::regular())
        } else if str_eq(s, "normal") {
            Ok(FontWeight::normal())
        } else if str_eq(s, "medium") {
            Ok(FontWeight::medium())
        } else if str_eq(s, "semi-bold") {
            Ok(FontWeight::semi_bold())
        } else if str_eq(s, "bold") {
            Ok(FontWeight::bold())
        } else if str_eq(s, "extra-bold") {
            Ok(FontWeight::extra_bold())
        } else if str_eq(s, "black") {
            Ok(FontWeight::black())
        } else {
            match parse_u16(s) {
                Ok(v) => Ok(FontWeight(v)),
                Err(e) => Err(e),
            }
        }
    }
}

/// Slant of a font.
#[derive(Debug, Clone, Copy, PartialEq, Eq, Hash, Structural)]
pub enum FontStyle {
    Normal,
    Italic,
    Oblique,
}

impl Default for FontStyle {
    fn default() -> (r: FontStyle)
        ensures
            r == FontStyle::Normal,
    {
        FontStyle::Normal
    }
}

/// Horizontal alignment of text.
#[derive(Copy, Clone, Debug, PartialEq, Eq, Hash, Structural)]
pub enum TextAlign {
    Start,
    End,
    Middle,
    Justify,
}

} // verus!
