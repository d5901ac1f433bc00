use vstd::prelude::*;

use crate::escape::{escape_xml, xml_escaped};
use crate::language::Language;
use crate::multidot::{protect, protect_multidots, restore, restore_multidots};
use crate::prefixes::{
    char_views, numeric_only_entries, numeric_only_prefixes, prefix_entries, read_prefix_list,
    resolve_nonbreaking, resolved_text,
};
use crate::rewrite::{
    fancy_rewrite, fancy_rewritten, rewrite, rewrite_by, rewritten, rewritten_by,
};
use crate::rules::{
    comma_rules, comma_table, english_apostrophe_rules, english_apostrophe_table,
    penn_bracket_rules, penn_bracket_table, penn_closing_rules, penn_closing_table,
    penn_opening_rules, penn_opening_table, romance_apostrophe_rules, romance_apostrophe_table,
};
use crate::text::{
    is_single_spaced, joined, lemma_joined_words, lemma_squeezed_single_spaced, chars_of, collapse, collapse_spaces, lemma_words_are_words, is_space, split_words,
    string_of, string_views, strip_controls, trim, trimmed, without_controls, words,
};
use crate::uniprops::PerlUniProps;

verus! {

/// Combining marks of the Indic and other scripts that count as letters: the viramas.
pub const VIRAMAS: &'static str = "\\u094D\\u09CD\\u0A4D\\u0ACD\\u0B4D\\u0BCD\\u0C4D\\u0CCD\\u0D3B\\u0D3C\\u0D4D\\u0EBA\\u1039\\u1714\\u1BAB\\uA8C4\\uA8F3\\uA8F4\\uA953\\uAAF6\\U00010A3F\\U00011046\\U000110B9\\U00011133\\U000111C0\\U00011235\\U000112EA\\U0001134D\\U00011442\\U000114C2\\U000115BF\\U0001163F\\U000116B6\\U00011839\\U000119E0\\U00011A34\\U00011C3F\\U00011D45\\U00011D97\\u0DCA";

/// Combining marks that count as letters: the nuktas.
pub const NUKTAS: &'static str = "\\u093C\\u09BC\\u0A3C\\u0ABC\\u0AFD\\u0AFE\\u0AFF\\u0B3C\\u0CBC\\u1C37\\U000110BA\\U00011173\\U000111CA\\U00011236\\U000112E9\\U0001133C\\U00011446\\U000114C3\\U000115C0\\U000116B7\\U0001183A\\U00011D42\\U0001E94A";

/// The script classes that a language of the Chinese, Japanese and Korean family adds to the
/// letters.
pub open spec fn cjk_classes(lang: Language) -> Seq<char> {
    (if lang == Language::Ko || lang == Language::Cjk {
        PerlUniProps::Hangul.class()
    } else {
        Seq::empty()
    }) + (if lang == Language::Zh || lang == Language::Cjk {
        PerlUniProps::Han.class()
    } else {
        Seq::empty()
    }) + (if lang == Language::Ja || lang == Language::Cjk {
        PerlUniProps::Hiragana.class() + PerlUniProps::Katakana.class() + PerlUniProps::Han.class()
    } else {
        Seq::empty()
    })
}

/// The class body of the letters and digits of a language.
pub open spec fn alnum_class(lang: Language) -> Seq<char> {
    PerlUniProps::IsAlnum.class() + VIRAMAS@ + NUKTAS@ + cjk_classes(lang)
}

/// The pattern of a character to pad with spaces: none of the letters and digits, white
/// space, `.`, `'`, `` ` ``, `,` and `-`.
pub open spec fn pad_pattern(lang: Language) -> Seq<char> {
    "([^"@ + alnum_class(lang) + "\\s\\.'`,-])"@
}

/// The pattern of a hyphen between two letters or digits.
pub open spec fn hyphen_pattern(lang: Language) -> Seq<char> {
    "(["@ + alnum_class(lang) + "])\\-(?=["@ + alnum_class(lang) + "])"@
}

/// The pattern of a slash between two letters or digits.
pub open spec fn slash_pattern(lang: Language) -> Seq<char> {
    "(["@ + alnum_class(lang) + "])/(["@ + alnum_class(lang) + "])"@
}

/// Splits a period and a closing apostrophe at the end of `s` from the rest.
pub open spec fn split_final_quote(s: Seq<char>) -> Seq<char> {
    if s.len() >= 2 && s[s.len() - 2] == '.' && s.last() == '\'' {
        s.take(s.len() - 2) + seq![' ', '.', ' ', '\'', ' ']
    } else {
        s
    }
}

/// `s` with its white space made single spaces and its ends trimmed.
pub open spec fn squeezed(s: Seq<char>) -> Seq<char> {
    trimmed(collapse_spaces(s))
}

/// A tokenizer for one language: the Moses rules, with the nonbreaking prefixes of the
/// language.
pub struct MosesTokenizer {
    lang: Language,
    nonbreaking_prefixes: Vec<Vec<char>>,
    numeric_only_prefixes: Vec<Vec<char>>,
    pad_not_isalnum: String,
    aggressive_hyphen_split: String,
    intratoken_slashes: String,
}

/// The text that a tokenizer made; its tokens are its words.
pub struct Tokens {
    pub text: String,
}

impl MosesTokenizer {
    #[verifier::type_invariant]
    spec fn well_formed(self) -> bool {
        &&& self.pad_not_isalnum@ == pad_pattern(self.lang)
        &&& self.aggressive_hyphen_split@ == hyphen_pattern(self.lang)
        &&& self.intratoken_slashes@ == slash_pattern(self.lang)
        &&& char_views(self.numeric_only_prefixes@) == numeric_only_entries(
            char_views(self.nonbreaking_prefixes@),
        )
    }

    /// The language of the tokenizer.
    pub closed spec fn language(self) -> Language {
        self.lang
    }

    /// The nonbreaking prefixes.
    pub closed spec fn prefixes(self) -> Seq<Seq<char>> {
        char_views(self.nonbreaking_prefixes@)
    }

    /// The prefixes that do not break only before a number.
    pub open spec fn numeric_prefixes(self) -> Seq<Seq<char>> {
        numeric_only_entries(self.prefixes())
    }

    /// The text before the prefixes are resolved: white space and control characters
    /// cleaned, symbols padded, hyphens split, runs of dots protected, commas and apostrophes
    /// spaced.
    pub open spec fn prepared_text(self, text: Seq<char>) -> Seq<char> {
        let lang = self.language();
        let t1 = trimmed(without_controls(collapse_spaces(text)));
        let t2 = rewritten(t1, pad_pattern(lang), " $1 "@);
        let t3 = fancy_rewritten(t2, hyphen_pattern(lang), "$1 @-@ "@);
        let t4 = rewritten_by(protect(t3), comma_rules());
        if lang == Language::En {
            rewritten_by(t4, english_apostrophe_rules())
        } else if lang == Language::Fr || lang == Language::It {
            rewritten_by(t4, romance_apostrophe_rules())
        } else {
            t4
        }
    }

    /// The text of the tokens of `text`; escaped for XML unless `escape` is `Some(false)`.
    pub open spec fn tokenized(self, text: Seq<char>, escape: Option<bool>) -> Seq<char> {
        let t5 = resolved_text(self.prepared_text(text), self.prefixes(), self.numeric_prefixes());
        let t6 = restore(split_final_quote(squeezed(t5)));
        let t7 = if escape == Some(false) {
            t6
        } else {
            xml_escaped(t6)
        };
        squeezed(t7)
    }

    /// The text of the Penn Treebank tokens of `text`.
    pub open spec fn penn_tokenized(self, text: Seq<char>) -> Seq<char> {
        let t1 = rewritten_by(text, penn_opening_rules());
        let t2 = fancy_rewritten(t1, slash_pattern(self.language()), "$1 @/@ $2"@);
        let t3 = rewritten_by(t2, penn_bracket_rules());
        let t4 = resolved_text(t3, self.prefixes(), self.numeric_prefixes());
        rewritten_by(t4, penn_closing_rules())
    }

    /// A tokenizer for `lang` with no nonbreaking prefixes.
    pub fn new(lang: Language) -> (r: MosesTokenizer)
        ensures
            r.language() == lang,
            r.prefixes() == Seq::<Seq<char>>::empty(),
    {
        proof {
            reveal_strlit("");
        }
        let r = MosesTokenizer::new_with_prefixes(lang, "");
        assert(prefix_entries(""@) =~= Seq::<Seq<char>>::empty()) by {
            reveal_with_fuel(crate::prefixes::kept_lines, 2);
            assert(crate::prefixes::split_by_char(""@, '\n') == seq![Seq::<char>::empty()]);
            assert(seq![Seq::<char>::empty()].drop_last() =~= Seq::<Seq<char>>::empty());
            assert(crate::text::trim_start(Seq::<char>::empty()) == Seq::<char>::empty());
            assert(crate::text::trim_end(Seq::<char>::empty()) == Seq::<char>::empty());
        }
        r
    }

    /// A tokenizer for `lang` whose nonbreaking prefixes are the entries of `prefix_list`: one
    /// per line, blank lines and lines that start with `#` left out, and the entries with the
    /// numeric-only mark counted as numeric-only prefixes.
    pub fn new_with_prefixes(lang: Language, prefix_list: &str) -> (r: MosesTokenizer)
        ensures
            r.language() == lang,
            r.prefixes() == prefix_entries(prefix_list@),
    {
        let nonbreaking_prefixes = read_prefix_list(&chars_of(prefix_list));
        let numeric_only_prefixes = numeric_only_prefixes(&nonbreaking_prefixes);
        let mut alnum = String::from_str(PerlUniProps::IsAlnum.as_str());
        alnum.append(VIRAMAS);
        alnum.append(NUKTAS);
        if lang == Language::Ko || lang == Language::Cjk {
            alnum.append(PerlUniProps::Hangul.as_str());
        }
        if lang == Language::Zh || lang == Language::Cjk {
            alnum.append(PerlUniProps::Han.as_str());
        }
        if lang == Language::Ja || lang == Language::Cjk {
            alnum.append(PerlUniProps::Hiragana.as_str());
            alnum.append(PerlUniProps::Katakana.as_str());
            alnum.append(PerlUniProps::Han.as_str());
        }
        assert(alnum@ == alnum_class(lang));
        let mut pad = String::from_str("([^");
        pad.append(alnum.as_str());
        pad.append("\\s\\.'`,-])");
        let mut hyphen = String::from_str("([");
        hyphen.append(alnum.as_str());
        hyphen.append("])\\-(?=[");
        hyphen.append(alnum.as_str());
        hyphen.append("])");
        let mut slash = String::from_str("([");
        slash.append(alnum.as_str());
        slash.append("])/([");
        slash.append(alnum.as_str());
        slash.append("])");
        MosesTokenizer {
            lang,
            nonbreaking_prefixes,
            numeric_only_prefixes,
            pad_not_isalnum: pad,
            aggressive_hyphen_split: hyphen,
            intratoken_slashes: slash,
        }
    }

    /// Tokenizes `text` by the Penn Treebank conventions.
    pub fn penn_tokenize(&self, text: &str) -> (r: Tokens)
        ensures
            r.text@ == self.penn_tokenized(text@),
    {
        proof {
            use_type_invariant(self);
        }
        let t1 = rewrite_by(text, &penn_opening_table());
        let t2 = fancy_rewrite(t1.as_str(), self.intratoken_slashes.as_str(), "$1 @/@ $2");
        let t3 = rewrite_by(t2.as_str(), &penn_bracket_table());
        let t4 = resolve_nonbreaking(
            &chars_of(t3.as_str()),
            &self.nonbreaking_prefixes,
            &self.numeric_only_prefixes,
        );
        let t5 = rewrite_by(string_of(&t4).as_str(), &penn_closing_table());
        Tokens { text: t5 }
    }

    /// Cleans, pads and spaces `text` up to the resolution of the prefixes.
    fn prepared(&self, text: &str) -> (r: String)
        ensures
            r@ == self.prepared_text(text@),
    {
        proof {
            use_type_invariant(self);
        }
        let t1 = trim(&strip_controls(&collapse(&chars_of(text))));
        let t2 = rewrite(string_of(&t1).as_str(), self.pad_not_isalnum.as_str(), " $1 ");
        let t3 = fancy_rewrite(t2.as_str(), self.aggressive_hyphen_split.as_str(), "$1 @-@ ");
        let t4 = rewrite_by(string_of(&protect_multidots(&chars_of(t3.as_str()))).as_str(), &comma_table());
        if self.lang == Language::En {
            rewrite_by(t4.as_str(), &english_apostrophe_table())
        } else if self.lang == Language::Fr || self.lang == Language::It {
            rewrite_by(t4.as_str(), &romance_apostrophe_table())
        } else {
            t4
        }
    }

    /// Tokenizes `text`; the tokens are escaped for XML unless `escape` is `Some(false)`.
    pub fn tokenize(&self, text: &str, escape: Option<bool>) -> (r: Tokens)
        ensures
            r.text@ == self.tokenized(text@, escape),
            is_single_spaced(r.text@),
    {
        proof {
            use_type_invariant(self);
        }
        let t4 = self.prepared(text);
        let t5 = resolve_nonbreaking(
            &chars_of(t4.as_str()),
            &self.nonbreaking_prefixes,
            &self.numeric_only_prefixes,
        );
        let t6 = restore_multidots(&split_quote(&trim(&collapse(&t5))));
        let t7 = match escape {
            Some(false) => t6,
            _ => escape_xml(&t6),
        };
        proof {
            lemma_squeezed_single_spaced(t7@);
        }
        Tokens { text: string_of(&trim(&collapse(&t7))) }
    }
}

/// Whatever the language, the text and the escape setting, the tokens of a tokenized text are
/// never empty, hold no white space, and joined by single spaces give the text back.
pub proof fn lemma_tokenized_tokens(tok: MosesTokenizer, text: Seq<char>, escape: Option<bool>)
    ensures
        ({
            let t = tok.tokenized(text, escape);
            &&& forall|i: int| 0 <= i < words(t).len() ==> #[trigger] words(t)[i].len() > 0
            &&& forall|i: int, j: int|
                0 <= i < words(t).len() && 0 <= j < words(t)[i].len() ==> !is_space(
                    #[trigger] words(t)[i][j],
                )
            &&& joined(words(t)) == t
        }),
{
    let t5 = resolved_text(tok.prepared_text(text), tok.prefixes(), tok.numeric_prefixes());
    let t6 = restore(split_final_quote(squeezed(t5)));
    let t7 = if escape == Some(false) {
        t6
    } else {
        xml_escaped(t6)
    };
    let t = tok.tokenized(text, escape);
    assert(t == squeezed(t7));
    lemma_squeezed_single_spaced(t7);
    lemma_words_are_words(t);
    lemma_joined_words(t);
}

/// Splits a period and a closing apostrophe at the end of `s` from the rest.
fn split_quote(s: &Vec<char>) -> (r: Vec<char>)
    ensures
        r@ == split_final_quote(s@),
{
    let n = s.len();
    if n >= 2 && s[n - 2] == '.' && s[n - 1] == '\'' {
        let mut r: Vec<char> = Vec::new();
        let mut i: usize = 0;
        while i < n - 2
            invariant
                n == s.len(),
                n >= 2,
                i <= n - 2,
                r@ == s@.take(i as int),
            decreases n - i,
        {
            r.push(s[i]);
            assert(s@.take(i + 1) == s@.take(i as int).push(s@[i as int]));
            i += 1;
        }
        r.push(' ');
        r.push('.');
        r.push(' ');
        r.push('\'');
        r.push(' ');
        assert(r@ =~= s@.take(n - 2) + seq![' ', '.', ' ', '\'', ' ']);
        r
    } else {
        s.clone()
    }
}

impl Tokens {
    /// The tokens: the maximal runs of characters other than white space, left to right. None
    /// is empty and none holds white space; where the text has single spaces between its other
    /// characters, the tokens joined by spaces give it back.
    pub fn tokens(&self) -> (r: Vec<String>)
        ensures
            string_views(r@) == words(self.text@),
            is_single_spaced(self.text@) ==> joined(string_views(r@)) == self.text@,
            forall|i: int| 0 <= i < r.len() ==> #[trigger] r@[i]@.len() > 0,
            forall|i: int, j: int|
                0 <= i < r.len() && 0 <= j < r@[i]@.len() ==> !is_space(#[trigger] r@[i]@[j]),
    {
        let r = split_words(&chars_of(self.text.as_str()));
        proof {
            lemma_words_are_words(self.text@);
            if is_single_spaced(self.text@) {
                lemma_joined_words(self.text@);
            }
            assert forall|i: int| 0 <= i < r.len() implies #[trigger] r@[i]@.len() > 0 by {
                assert(string_views(r@)[i] == r@[i]@);
            }
            assert forall|i: int, j: int|
                0 <= i < r.len() && 0 <= j < r@[i]@.len() implies !is_space(#[trigger] r@[i]@[j]) by {
                assert(string_views(r@)[i] == r@[i]@);
                assert(words(self.text@)[i][j] == r@[i]@[j]);
            }
        }
        r
    }
}

} // verus!
