use vstd::prelude::*;

verus! {

/// The Unicode character classes that the tokenizer's patterns are built from.
#[derive(Copy, Clone, Debug, PartialEq, Eq, Structural)]
pub enum PerlUniProps {
    IsAlnum,
    Hiragana,
    LineSeparator,
    IsN,
    HangulSyllables,
    IsSc,
    IsLower,
    IsAlphaUnicharsAu,
    Katakana,
    CurrencySymbol,
    IsAlnumUnicharsAu,
    IsUpper,
    Han,
    Number,
    ClosePunctuation,
    IsPi,
    IsPf,
    OpenPunctuation,
    CJKSymbols,
    Punctuation,
    LowercaseLetter,
    Hangul,
    IsAlpha,
    IsSo,
    Separator,
    TitlecaseLetter,
    UppercaseLetter,
    CJK,
    Symbol,
}

impl PerlUniProps {
    /// The body of a bracketed pattern class that holds exactly the characters of this class.
    pub open spec fn class(self) -> Seq<char> {
        match self {
            PerlUniProps::IsAlnum => "\\p{Alphabetic}\\p{Nd}"@,
            PerlUniProps::Hiragana => "\\p{Hiragana}"@,
            PerlUniProps::LineSeparator => "\\p{Zl}"@,
            PerlUniProps::IsN => "\\p{N}"@,
            PerlUniProps::HangulSyllables => "\\x{AC00}-\\x{D7A3}"@,
            PerlUniProps::IsSc => "\\p{Sc}"@,
            PerlUniProps::IsLower => "\\p{Lowercase}"@,
            PerlUniProps::IsAlphaUnicharsAu => "\\p{Alphabetic}"@,
            PerlUniProps::Katakana => "\\p{Katakana}"@,
            PerlUniProps::CurrencySymbol => "\\p{Sc}"@,
            PerlUniProps::IsAlnumUnicharsAu => "\\p{Alphabetic}\\p{Nd}"@,
            PerlUniProps::IsUpper => "\\p{Uppercase}"@,
            PerlUniProps::Han => "\\p{Han}"@,
            PerlUniProps::Number => "\\p{N}"@,
            PerlUniProps::ClosePunctuation => "\\p{Pe}"@,
            PerlUniProps::IsPi => "\\p{Pi}"@,
            PerlUniProps::IsPf => "\\p{Pf}"@,
            PerlUniProps::OpenPunctuation => "\\p{Ps}"@,
            PerlUniProps::CJKSymbols => "\\x{3000}-\\x{303F}"@,
            PerlUniProps::Punctuation => "\\p{P}"@,
            PerlUniProps::LowercaseLetter => "\\p{Ll}"@,
            PerlUniProps::Hangul => "\\p{Hangul}"@,
            PerlUniProps::IsAlpha => "\\p{Alphabetic}"@,
            PerlUniProps::IsSo => "\\p{So}"@,
            PerlUniProps::Separator => "\\p{Z}"@,
            PerlUniProps::TitlecaseLetter => "\\p{Lt}"@,
            PerlUniProps::UppercaseLetter => "\\p{Lu}"@,
            PerlUniProps::CJK => "\\p{Han}\\p{Hiragana}\\p{Katakana}\\p{Hangul}"@,
            PerlUniProps::Symbol => "\\p{S}"@,
        }
    }

    /// The body of a bracketed pattern class that holds exactly the characters of this class.
    pub fn as_str(&self) -> (r: &'static str)
        ensures
            r@ == self.class(),
    {
        match self {
            PerlUniProps::IsAlnum => "\\p{Alphabetic}\\p{Nd}",
            PerlUniProps::Hiragana => "\\p{Hiragana}",
            PerlUniProps::LineSeparator => "\\p{Zl}",
            PerlUniProps::IsN => "\\p{N}",
            PerlUniProps::HangulSyllables => "\\x{AC00}-\\x{D7A3}",
            PerlUniProps::IsSc => "\\p{Sc}",
            PerlUniProps::IsLower => "\\p{Lowercase}",
            PerlUniProps::IsAlphaUnicharsAu => "\\p{Alphabetic}",
            PerlUniProps::Katakana => "\\p{Katakana}",
            PerlUniProps::CurrencySymbol => "\\p{Sc}",
            PerlUniProps::IsAlnumUnicharsAu => "\\p{Alphabetic}\\p{Nd}",
            PerlUniProps::IsUpper => "\\p{Uppercase}",
            PerlUniProps::Han => "\\p{Han}",
            PerlUniProps::Number => "\\p{N}",
            PerlUniProps::ClosePunctuation => "\\p{Pe}",
            PerlUniProps::IsPi => "\\p{Pi}",
            PerlUniProps::IsPf => "\\p{Pf}",
            PerlUniProps::OpenPunctuation => "\\p{Ps}",
            PerlUniProps::CJKSymbols => "\\x{3000}-\\x{303F}",
            PerlUniProps::Punctuation => "\\p{P}",
            PerlUniProps::LowercaseLetter => "\\p{Ll}",
            PerlUniProps::Hangul => "\\p{Hangul}",
            PerlUniProps::IsAlpha => "\\p{Alphabetic}",
            PerlUniProps::IsSo => "\\p{So}",
            PerlUniProps::Separator => "\\p{Z}",
            PerlUniProps::TitlecaseLetter => "\\p{Lt}",
            PerlUniProps::UppercaseLetter => "\\p{Lu}",
            PerlUniProps::CJK => "\\p{Han}\\p{Hiragana}\\p{Katakana}\\p{Hangul}",
            PerlUniProps::Symbol => "\\p{S}",
        }
    }
}

} // verus!
