use vstd::prelude::*;

use crate::text::chars_of;

verus! {

/// The languages that the tokenizer and the normalizer know.
#[derive(Copy, Clone, Debug, PartialEq, Eq, Structural)]
pub enum Language {
    As,
    Bn,
    Ca,
    Cjk,
    Cs,
    Cz,
    De,
    El,
    En,
    Es,
    Et,
    Fi,
    Fr,
    Ga,
    Gu,
    Hi,
    Hu,
    Is,
    It,
    Ja,
    Kn,
    Ko,
    Lt,
    Lv,
    Ml,
    Mni,
    Mr,
    Nl,
    Or,
    Pa,
    Pl,
    Pt,
    Ro,
    Ru,
    Sk,
    Sl,
    Sv,
    Ta,
    Te,
    Yue,
    Zh,
}

/// The error of a language tag that names none of the known languages.
#[derive(Copy, Clone, Debug, PartialEq, Eq, Structural)]
pub struct UnknownLanguage;

/// ASCII upper-case letters are taken to lower case; every other character is kept.
pub open spec fn ascii_lower(c: char) -> char {
    if 'A' <= c && c <= 'Z' {
        ((c as u8) + 32) as char
    } else {
        c
    }
}

/// A string with its ASCII letters in lower case.
pub open spec fn ascii_lower_seq(s: Seq<char>) -> Seq<char> {
    s.map_values(|c: char| ascii_lower(c))
}

impl Language {
    /// The lower-case tag of the language.
    pub open spec fn tag(self) -> Seq<char> {
        match self {
            Language::As => seq!['a', 's'],
            Language::Bn => seq!['b', 'n'],
            Language::Ca => seq!['c', 'a'],
            Language::Cjk => seq!['c', 'j', 'k'],
            Language::Cs => seq!['c', 's'],
            Language::Cz => seq!['c', 'z'],
            Language::De => seq!['d', 'e'],
            Language::El => seq!['e', 'l'],
            Language::En => seq!['e', 'n'],
            Language::Es => seq!['e', 's'],
            Language::Et => seq!['e', 't'],
            Language::Fi => seq!['f', 'i'],
            Language::Fr => seq!['f', 'r'],
            Language::Ga => seq!['g', 'a'],
            Language::Gu => seq!['g', 'u'],
            Language::Hi => seq!['h', 'i'],
            Language::Hu => seq!['h', 'u'],
            Language::Is => seq!['i', 's'],
            Language::It => seq!['i', 't'],
            Language::Ja => seq!['j', 'a'],
            Language::Kn => seq!['k', 'n'],
            Language::Ko => seq!['k', 'o'],
            Language::Lt => seq!['l', 't'],
            Language::Lv => seq!['l', 'v'],
            Language::Ml => seq!['m', 'l'],
            Language::Mni => seq!['m', 'n', 'i'],
            Language::Mr => seq!['m', 'r'],
            Language::Nl => seq!['n', 'l'],
            Language::Or => seq!['o', 'r'],
            Language::Pa => seq!['p', 'a'],
            Language::Pl => seq!['p', 'l'],
            Language::Pt => seq!['p', 't'],
            Language::Ro => seq!['r', 'o'],
            Language::Ru => seq!['r', 'u'],
            Language::Sk => seq!['s', 'k'],
            Language::Sl => seq!['s', 'l'],
            Language::Sv => seq!['s', 'v'],
            Language::Ta => seq!['t', 'a'],
            Language::Te => seq!['t', 'e'],
            Language::Yue => seq!['y', 'u', 'e'],
            Language::Zh => seq!['z', 'h'],
        }
    }

    /// The lower-case tag of the language.
    pub fn as_str(&self) -> (r: &'static str)
        ensures
            r@ == self.tag(),
    {
        match self {
            Language::As => {
                proof {
                    reveal_strlit("as");
                }
                "as"
            },
            Language::Bn => {
                proof {
                    reveal_strlit("bn");
                }
                "bn"
            },
            Language::Ca => {
                proof {
                    reveal_strlit("ca");
                }
                "ca"
            },
            Language::Cjk => {
                proof {
                    reveal_strlit("cjk");
                }
                "cjk"
            },
            Language::Cs => {
                proof {
                    reveal_strlit("cs");
                }
                "cs"
            },
            Language::Cz => {
                proof {
                    reveal_strlit("cz");
                }
                "cz"
            },
            Language::De => {
                proof {
                    reveal_strlit("de");
                }
                "de"
            },
            Language::El => {
                proof {
                    reveal_strlit("el");
                }
                "el"
            },
            Language::En => {
                proof {
                    reveal_strlit("en");
                }
                "en"
            },
            Language::Es => {
                proof {
                    reveal_strlit("es");
                }
                "es"
            },
            Language::Et => {
                proof {
                    reveal_strlit("et");
                }
                "et"
            },
            Language::Fi => {
                proof {
                    reveal_strlit("fi");
                }
                "fi"
            },
            Language::Fr => {
                proof {
                    reveal_strlit("fr");
                }
                "fr"
            },
            Language::Ga => {
                proof {
                    reveal_strlit("ga");
                }
                "ga"
            },
            Language::Gu => {
                proof {
                    reveal_strlit("gu");
                }
                "gu"
            },
            Language::Hi => {
                proof {
                    reveal_strlit("hi");
                }
                "hi"
            },
            Language::Hu => {
                proof {
                    reveal_strlit("hu");
                }
                "hu"
            },
            Language::Is => {
                proof {
                    reveal_strlit("is");
                }
                "is"
            },
            Language::It => {
                proof {
                    reveal_strlit("it");
                }
                "it"
            },
            Language::Ja => {
                proof {
                    reveal_strlit("ja");
                }
                "ja"
            },
            Language::Kn => {
                proof {
                    reveal_strlit("kn");
                }
                "kn"
            },
            Language::Ko => {
                proof {
                    reveal_strlit("ko");
                }
                "ko"
            },
            Language::Lt => {
                proof {
                    reveal_strlit("lt");
                }
                "lt"
            },
            Language::Lv => {
                proof {
                    reveal_strlit("lv");
                }
                "lv"
            },
            Language::Ml => {
                proof {
                    reveal_strlit("ml");
                }
                "ml"
            },
            Language::Mni => {
                proof {
                    reveal_strlit("mni");
                }
                "mni"
            },
            Language::Mr => {
                proof {
                    reveal_strlit("mr");
                }
                "mr"
            },
            Language::Nl => {
                proof {
                    reveal_strlit("nl");
                }
                "nl"
            },
            Language::Or => {
                proof {
                    reveal_strlit("or");
                }
                "or"
            },
            Language::Pa => {
                proof {
                    reveal_strlit("pa");
                }
                "pa"
            },
            Language::Pl => {
                proof {
                    reveal_strlit("pl");
                }
                "pl"
            },
            Language::Pt => {
                proof {
                    reveal_strlit("pt");
                }
                "pt"
            },
            Language::Ro => {
                proof {
                    reveal_strlit("ro");
                }
                "ro"
            },
            Language::Ru => {
                proof {
                    reveal_strlit("ru");
                }
                "ru"
            },
            Language::Sk => {
                proof {
                    reveal_strlit("sk");
                }
                "sk"
            },
            Language::Sl => {
                proof {
                    reveal_strlit("sl");
                }
                "sl"
            },
            Language::Sv => {
                proof {
                    reveal_strlit("sv");
                }
                "sv"
            },
            Language::Ta => {
                proof {
                    reveal_strlit("ta");
                }
                "ta"
            },
            Language::Te => {
                proof {
                    reveal_strlit("te");
                }
                "te"
            },
            Language::Yue => {
                proof {
                    reveal_strlit("yue");
                }
                "yue"
            },
            Language::Zh => {
                proof {
                    reveal_strlit("zh");
                }
                "zh"
            },
        }
    }

    /// Whether `s`, compared without regard to ASCII case, is the tag of this language.
    fn tag_matches(self, s: &Vec<char>) -> (r: bool)
        ensures
            r == (ascii_lower_seq(s@) == self.tag()),
    {
        let t = chars_of(self.as_str());
        if t.len() != s.len() {
            return false;
        }
        let mut i: usize = 0;
        while i < s.len()
            invariant
                i <= s.len(),
                t@ == self.tag(),
                t.len() == s.len(),
                forall|j: int| 0 <= j < i ==> ascii_lower(s@[j]) == t@[j],
            decreases s.len() - i,
        {
            let c = s[i];
            let lc = if 'A' <= c && c <= 'Z' { ((c as u8) + 32) as char } else { c };
            if lc != t[i] {
                assert(ascii_lower_seq(s@)[i as int] != self.tag()[i as int]);
                return false;
            }
            i += 1;
        }
        assert(ascii_lower_seq(s@) =~= self.tag());
        true
    }

    /// The language whose tag is `tag`, compared without regard to ASCII case.
    pub fn from_tag(tag: &str) -> (r: Result<Language, UnknownLanguage>)
        ensures
            r matches Ok(l) ==> l.tag() == ascii_lower_seq(tag@),
            r is Err <==> (forall|l: Language| l.tag() != ascii_lower_seq(tag@)),
    {
        let s = chars_of(tag);
        if Language::As.tag_matches(&s) {
            return Ok(Language::As);
        }
        if Language::Bn.tag_matches(&s) {
            return Ok(Language::Bn);
        }
        if Language::Ca.tag_matches(&s) {
            return Ok(Language::Ca);
        }
        if Language::Cjk.tag_matches(&s) {
            return Ok(Language::Cjk);
        }
        if Language::Cs.tag_matches(&s) {
            return Ok(Language::Cs);
        }
        if Language::Cz.tag_matches(&s) {
            return Ok(Language::Cz);
        }
        if Language::De.tag_matches(&s) {
            return Ok(Language::De);
        }
        if Language::El.tag_matches(&s) {
            return Ok(Language::El);
        }
        if Language::En.tag_matches(&s) {
            return Ok(Language::En);
        }
        if Language::Es.tag_matches(&s) {
            return Ok(Language::Es);
        }
        if Language::Et.tag_matches(&s) {
            return Ok(Language::Et);
        }
        if Language::Fi.tag_matches(&s) {
            return Ok(Language::Fi);
        }
        if Language::Fr.tag_matches(&s) {
            return Ok(Language::Fr);
        }
        if Language::Ga.tag_matches(&s) {
            return Ok(Language::Ga);
        }
        if Language::Gu.tag_matches(&s) {
            return Ok(Language::Gu);
        }
        if Language::Hi.tag_matches(&s) {
            return Ok(Language::Hi);
        }
        if Language::Hu.tag_matches(&s) {
            return Ok(Language::Hu);
        }
        if Language::Is.tag_matches(&s) {
            return Ok(Language::Is);
        }
        if Language::It.tag_matches(&s) {
            return Ok(Language::It);
        }
        if Language::Ja.tag_matches(&s) {
            return Ok(Language::Ja);
        }
        if Language::Kn.tag_matches(&s) {
            return Ok(Language::Kn);
        }
        if Language::Ko.tag_matches(&s) {
            return Ok(Language::Ko);
        }
        if Language::Lt.tag_matches(&s) {
            return Ok(Language::Lt);
        }
        if Language::Lv.tag_matches(&s) {
            return Ok(Language::Lv);
        }
        if Language::Ml.tag_matches(&s) {
            return Ok(Language::Ml);
        }
        if Language::Mni.tag_matches(&s) {
            return Ok(Language::Mni);
        }
        if Language::Mr.tag_matches(&s) {
            return Ok(Language::Mr);
        }
        if Language::Nl.tag_matches(&s) {
            return Ok(Language::Nl);
        }
        if Language::Or.tag_matches(&s) {
            return Ok(Language::Or);
        }
        if Language::Pa.tag_matches(&s) {
            return Ok(Language::Pa);
        }
        if Language::Pl.tag_matches(&s) {
            return Ok(Language::Pl);
        }
        if Language::Pt.tag_matches(&s) {
            return Ok(Language::Pt);
        }
        if Language::Ro.tag_matches(&s) {
            return Ok(Language::Ro);
        }
        if Language::Ru.tag_matches(&s) {
            return Ok(Language::Ru);
        }
        if Language::Sk.tag_matches(&s) {
            return Ok(Language::Sk);
        }
        if Language::Sl.tag_matches(&s) {
            return Ok(Language::Sl);
        }
        if Language::Sv.tag_matches(&s) {
            return Ok(Language::Sv);
        }
        if Language::Ta.tag_matches(&s) {
            return Ok(Language::Ta);
        }
        if Language::Te.tag_matches(&s) {
            return Ok(Language::Te);
        }
        if Language::Yue.tag_matches(&s) {
            return Ok(Language::Yue);
        }
        if Language::Zh.tag_matches(&s) {
            return Ok(Language::Zh);
        }
        assert forall|l: Language| l.tag() != ascii_lower_seq(tag@) by {
            match l {
                Language::As => {},
                Language::Bn => {},
                Language::Ca => {},
                Language::Cjk => {},
                Language::Cs => {},
                Language::Cz => {},
                Language::De => {},
                Language::El => {},
                Language::En => {},
                Language::Es => {},
                Language::Et => {},
                Language::Fi => {},
                Language::Fr => {},
                Language::Ga => {},
                Language::Gu => {},
                Language::Hi => {},
                Language::Hu => {},
                Language::Is => {},
                Language::It => {},
                Language::Ja => {},
                Language::Kn => {},
                Language::Ko => {},
                Language::Lt => {},
                Language::Lv => {},
                Language::Ml => {},
                Language::Mni => {},
                Language::Mr => {},
                Language::Nl => {},
                Language::Or => {},
                Language::Pa => {},
                Language::Pl => {},
                Language::Pt => {},
                Language::Ro => {},
                Language::Ru => {},
                Language::Sk => {},
                Language::Sl => {},
                Language::Sv => {},
                Language::Ta => {},
                Language::Te => {},
                Language::Yue => {},
                Language::Zh => {},
            }
        }
        Err(UnknownLanguage)
    }
}

impl core::str::FromStr for Language {
    type Err = UnknownLanguage;

    fn from_str(s: &str) -> Result<Language, UnknownLanguage> {
        Language::from_tag(s)
    }
}

} // verus!
