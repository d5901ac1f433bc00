use vstd::prelude::*;

use crate::language::Language;
use crate::rewrite::{rewrite_by, rewritten_by, rules_view};
use crate::text::{chars_of, string_of};

verus! {

/// Ellipsis and full-width stops to ASCII periods.
pub open spec fn unicode_stop_rules() -> Seq<(Seq<char>, Seq<char>)> {
    seq![
        ("\u{2026}"@, "..."@),
        ("\u{3002}\\s*"@, ". "@),
        ("\u{ff0e}\\s*"@, ". "@),
    ]
}

/// Ellipsis and full-width stops to ASCII periods.
pub(crate) fn unicode_stop_table() -> (r: Vec<(&'static str, &'static str)>)
    ensures
        rules_view(r@) == unicode_stop_rules(),
{
    let mut v: Vec<(&'static str, &'static str)> = Vec::new();
    v.push(("\u{2026}", "..."));
    v.push(("\u{3002}\\s*", ". "));
    v.push(("\u{ff0e}\\s*", ". "));
    assert(rules_view(v@) =~= unicode_stop_rules());
    v
}

/// Carriage returns out, parentheses padded and tightened, runs of spaces made one, spaces before `%`, `:` and `;` dropped.
pub open spec fn whitespace_rules() -> Seq<(Seq<char>, Seq<char>)> {
    seq![
        ("\\r"@, ""@),
        ("\\("@, " ("@),
        ("\\)"@, ") "@),
        (" +"@, " "@),
        ("\\) ([.!:?;,])"@, ")$1"@),
        ("\\( "@, "("@),
        (" \\)"@, ")"@),
        ("(\\d) %"@, "$1%"@),
        (" :"@, ":"@),
        (" ;"@, ";"@),
    ]
}

/// Carriage returns out, parentheses padded and tightened, runs of spaces made one, spaces before `%`, `:` and `;` dropped.
pub(crate) fn whitespace_table() -> (r: Vec<(&'static str, &'static str)>)
    ensures
        rules_view(r@) == whitespace_rules(),
{
    let mut v: Vec<(&'static str, &'static str)> = Vec::new();
    v.push(("\\r", ""));
    v.push(("\\(", " ("));
    v.push(("\\)", ") "));
    v.push((" +", " "));
    v.push(("\\) ([.!:?;,])", ")$1"));
    v.push(("\\( ", "("));
    v.push((" \\)", ")"));
    v.push(("(\\d) %", "$1%"));
    v.push((" :", ":"));
    v.push((" ;", ";"));
    assert(rules_view(v@) =~= whitespace_rules());
    v
}

/// Backticks to apostrophes, doubled apostrophes to a spaced double quote.
pub open spec fn penn_quote_rules() -> Seq<(Seq<char>, Seq<char>)> {
    seq![
        ("`"@, "'"@),
        ("''"@, " \" "@),
    ]
}

/// Backticks to apostrophes, doubled apostrophes to a spaced double quote.
pub(crate) fn penn_quote_table() -> (r: Vec<(&'static str, &'static str)>)
    ensures
        rules_view(r@) == penn_quote_rules(),
{
    let mut v: Vec<(&'static str, &'static str)> = Vec::new();
    v.push(("`", "'"));
    v.push(("''", " \" "));
    assert(rules_view(v@) =~= penn_quote_rules());
    v
}

/// Typographic quotes, dashes, accents and ellipses to their ASCII forms.
pub open spec fn unicode_quote_rules() -> Seq<(Seq<char>, Seq<char>)> {
    seq![
        ("\u{201e}"@, "\""@),
        ("\u{201c}"@, "\""@),
        ("\u{201d}"@, "\""@),
        ("\u{2013}"@, "-"@),
        ("\u{2014}"@, " - "@),
        (" +"@, " "@),
        ("\u{b4}"@, "'"@),
        ("([a-zA-Z])\u{2018}([a-zA-Z])"@, "$1'$2"@),
        ("([a-zA-Z])\u{2019}([a-zA-Z])"@, "$1'$2"@),
        ("\u{2018}"@, "'"@),
        ("\u{201a}"@, "'"@),
        ("\u{2019}"@, "'"@),
        ("''"@, "\""@),
        ("\u{b4}\u{b4}"@, "\""@),
        ("\u{2026}"@, "..."@),
    ]
}

/// Typographic quotes, dashes, accents and ellipses to their ASCII forms.
pub(crate) fn unicode_quote_table() -> (r: Vec<(&'static str, &'static str)>)
    ensures
        rules_view(r@) == unicode_quote_rules(),
{
    let mut v: Vec<(&'static str, &'static str)> = Vec::new();
    v.push(("\u{201e}", "\""));
    v.push(("\u{201c}", "\""));
    v.push(("\u{201d}", "\""));
    v.push(("\u{2013}", "-"));
    v.push(("\u{2014}", " - "));
    v.push((" +", " "));
    v.push(("\u{b4}", "'"));
    v.push(("([a-zA-Z])\u{2018}([a-zA-Z])", "$1'$2"));
    v.push(("([a-zA-Z])\u{2019}([a-zA-Z])", "$1'$2"));
    v.push(("\u{2018}", "'"));
    v.push(("\u{201a}", "'"));
    v.push(("\u{2019}", "'"));
    v.push(("''", "\""));
    v.push(("\u{b4}\u{b4}", "\""));
    v.push(("\u{2026}", "..."));
    assert(rules_view(v@) =~= unicode_quote_rules());
    v
}

/// Guillemets, with or without no-break spaces around them, to double quotes.
pub open spec fn french_quote_rules() -> Seq<(Seq<char>, Seq<char>)> {
    seq![
        ("\u{a0}\u{ab}\u{a0}"@, "\""@),
        ("\u{ab}\u{a0}"@, "\""@),
        ("\u{ab}"@, "\""@),
        ("\u{a0}\u{bb}\u{a0}"@, "\""@),
        ("\u{a0}\u{bb}"@, "\""@),
        ("\u{bb}"@, "\""@),
    ]
}

/// Guillemets, with or without no-break spaces around them, to double quotes.
pub(crate) fn french_quote_table() -> (r: Vec<(&'static str, &'static str)>)
    ensures
        rules_view(r@) == french_quote_rules(),
{
    let mut v: Vec<(&'static str, &'static str)> = Vec::new();
    v.push(("\u{a0}\u{ab}\u{a0}", "\""));
    v.push(("\u{ab}\u{a0}", "\""));
    v.push(("\u{ab}", "\""));
    v.push(("\u{a0}\u{bb}\u{a0}", "\""));
    v.push(("\u{a0}\u{bb}", "\""));
    v.push(("\u{bb}", "\""));
    assert(rules_view(v@) =~= french_quote_rules());
    v
}

/// No-break spaces before punctuation and units dropped or made plain spaces.
pub open spec fn pseudo_space_rules() -> Seq<(Seq<char>, Seq<char>)> {
    seq![
        ("\u{a0}%"@, "%"@),
        ("n\u{ba}\u{a0}"@, "n\u{ba} "@),
        ("\u{a0}:"@, ":"@),
        ("\u{a0}\u{ba}C"@, " \u{ba}C"@),
        ("\u{a0}cm"@, " cm"@),
        ("\u{a0}\\?"@, "?"@),
        ("\u{a0}!"@, "!"@),
        ("\u{a0};"@, ";"@),
        (",\u{a0}"@, ", "@),
        (" +"@, " "@),
    ]
}

/// No-break spaces before punctuation and units dropped or made plain spaces.
pub(crate) fn pseudo_space_table() -> (r: Vec<(&'static str, &'static str)>)
    ensures
        rules_view(r@) == pseudo_space_rules(),
{
    let mut v: Vec<(&'static str, &'static str)> = Vec::new();
    v.push(("\u{a0}%", "%"));
    v.push(("n\u{ba}\u{a0}", "n\u{ba} "));
    v.push(("\u{a0}:", ":"));
    v.push(("\u{a0}\u{ba}C", " \u{ba}C"));
    v.push(("\u{a0}cm", " cm"));
    v.push(("\u{a0}\\?", "?"));
    v.push(("\u{a0}!", "!"));
    v.push(("\u{a0};", ";"));
    v.push((",\u{a0}", ", "));
    v.push((" +", " "));
    assert(rules_view(v@) =~= pseudo_space_rules());
    v
}

/// English: commas and periods after a closing quote moved before it.
pub open spec fn english_quote_comma_rules() -> Seq<(Seq<char>, Seq<char>)> {
    seq![
        ("\"([,.]+)"@, "$1\""@),
    ]
}

/// English: commas and periods after a closing quote moved before it.
pub(crate) fn english_quote_comma_table() -> (r: Vec<(&'static str, &'static str)>)
    ensures
        rules_view(r@) == english_quote_comma_rules(),
{
    let mut v: Vec<(&'static str, &'static str)> = Vec::new();
    v.push(("\"([,.]+)", "$1\""));
    assert(rules_view(v@) =~= english_quote_comma_rules());
    v
}

/// German, Spanish and French: a comma before a closing quote moved after it, and a closing quote moved before the periods ahead of it.
pub open spec fn romance_quote_comma_rules() -> Seq<(Seq<char>, Seq<char>)> {
    seq![
        (",\""@, "\","@),
        ("(\\.+)\"(\\s*[^<])"@, "\"$1$2"@),
    ]
}

/// German, Spanish and French: a comma before a closing quote moved after it, and a closing quote moved before the periods ahead of it.
pub(crate) fn romance_quote_comma_table() -> (r: Vec<(&'static str, &'static str)>)
    ensures
        rules_view(r@) == romance_quote_comma_rules(),
{
    let mut v: Vec<(&'static str, &'static str)> = Vec::new();
    v.push((",\"", "\","));
    v.push(("(\\.+)\"(\\s*[^<])", "\"$1$2"));
    assert(rules_view(v@) =~= romance_quote_comma_rules());
    v
}

/// A no-break space between digits made a decimal comma.
pub open spec fn decimal_comma_rules() -> Seq<(Seq<char>, Seq<char>)> {
    seq![
        ("(\\d)\u{a0}(\\d)"@, "$1,$2"@),
    ]
}

/// A no-break space between digits made a decimal comma.
pub(crate) fn decimal_comma_table() -> (r: Vec<(&'static str, &'static str)>)
    ensures
        rules_view(r@) == decimal_comma_rules(),
{
    let mut v: Vec<(&'static str, &'static str)> = Vec::new();
    v.push(("(\\d)\u{a0}(\\d)", "$1,$2"));
    assert(rules_view(v@) =~= decimal_comma_rules());
    v
}

/// A no-break space between digits made a decimal point.
pub open spec fn decimal_point_rules() -> Seq<(Seq<char>, Seq<char>)> {
    seq![
        ("(\\d)\u{a0}(\\d)"@, "$1.$2"@),
    ]
}

/// A no-break space between digits made a decimal point.
pub(crate) fn decimal_point_table() -> (r: Vec<(&'static str, &'static str)>)
    ensures
        rules_view(r@) == decimal_point_rules(),
{
    let mut v: Vec<(&'static str, &'static str)> = Vec::new();
    v.push(("(\\d)\u{a0}(\\d)", "$1.$2"));
    assert(rules_view(v@) =~= decimal_point_rules());
    v
}

/// Unicode control and other unassigned or private characters dropped.
pub open spec fn control_rules() -> Seq<(Seq<char>, Seq<char>)> {
    seq![
        ("\\p{C}"@, ""@),
    ]
}

/// Unicode control and other unassigned or private characters dropped.
pub(crate) fn control_table() -> (r: Vec<(&'static str, &'static str)>)
    ensures
        rules_view(r@) == control_rules(),
{
    let mut v: Vec<(&'static str, &'static str)> = Vec::new();
    v.push(("\\p{C}", ""));
    assert(rules_view(v@) =~= control_rules());
    v
}

/// What the character table of full-width and CJK punctuation makes of `c`.
pub open spec fn punct_char(c: char) -> char {
    if c == '\u{ff0c}' {
        ','
    } else if c == '\u{3001}' {
        ','
    } else if c == '\u{201d}' {
        '\''
    } else if c == '\u{201c}' {
        '\''
    } else if c == '\u{2236}' {
        ':'
    } else if c == '\u{ff1a}' {
        ':'
    } else if c == '\u{ff1f}' {
        '?'
    } else if c == '\u{300a}' {
        '\''
    } else if c == '\u{300b}' {
        '\''
    } else if c == '\u{ff09}' {
        ','
    } else if c == '\u{ff01}' {
        '!'
    } else if c == '\u{ff08}' {
        '('
    } else if c == '\u{ff1b}' {
        ';'
    } else if c == '\u{ff11}' {
        '1'
    } else if c == '\u{300d}' {
        '\''
    } else if c == '\u{300c}' {
        '\''
    } else if c == '\u{ff10}' {
        '0'
    } else if c == '\u{ff13}' {
        '3'
    } else if c == '\u{ff12}' {
        '2'
    } else if c == '\u{ff15}' {
        '5'
    } else if c == '\u{ff16}' {
        '6'
    } else if c == '\u{ff19}' {
        '9'
    } else if c == '\u{ff17}' {
        '7'
    } else if c == '\u{ff18}' {
        '8'
    } else if c == '\u{ff14}' {
        '4'
    } else if c == '\u{ff5e}' {
        '~'
    } else if c == '\u{2019}' {
        '\''
    } else if c == '\u{2501}' {
        '-'
    } else if c == '\u{3008}' {
        '<'
    } else if c == '\u{3009}' {
        '>'
    } else if c == '\u{3010}' {
        '['
    } else if c == '\u{3011}' {
        ']'
    } else if c == '\u{ff05}' {
        '%'
    } else {
        c
    }
}

/// What the character table of full-width and CJK punctuation makes of `c`.
fn map_punct_char(c: char) -> (r: char)
    ensures
        r == punct_char(c),
{
    if c == '\u{ff0c}' {
        ','
    } else if c == '\u{3001}' {
        ','
    } else if c == '\u{201d}' {
        '\''
    } else if c == '\u{201c}' {
        '\''
    } else if c == '\u{2236}' {
        ':'
    } else if c == '\u{ff1a}' {
        ':'
    } else if c == '\u{ff1f}' {
        '?'
    } else if c == '\u{300a}' {
        '\''
    } else if c == '\u{300b}' {
        '\''
    } else if c == '\u{ff09}' {
        ','
    } else if c == '\u{ff01}' {
        '!'
    } else if c == '\u{ff08}' {
        '('
    } else if c == '\u{ff1b}' {
        ';'
    } else if c == '\u{ff11}' {
        '1'
    } else if c == '\u{300d}' {
        '\''
    } else if c == '\u{300c}' {
        '\''
    } else if c == '\u{ff10}' {
        '0'
    } else if c == '\u{ff13}' {
        '3'
    } else if c == '\u{ff12}' {
        '2'
    } else if c == '\u{ff15}' {
        '5'
    } else if c == '\u{ff16}' {
        '6'
    } else if c == '\u{ff19}' {
        '9'
    } else if c == '\u{ff17}' {
        '7'
    } else if c == '\u{ff18}' {
        '8'
    } else if c == '\u{ff14}' {
        '4'
    } else if c == '\u{ff5e}' {
        '~'
    } else if c == '\u{2019}' {
        '\''
    } else if c == '\u{2501}' {
        '-'
    } else if c == '\u{3008}' {
        '<'
    } else if c == '\u{3009}' {
        '>'
    } else if c == '\u{3010}' {
        '['
    } else if c == '\u{3011}' {
        ']'
    } else if c == '\u{ff05}' {
        '%'
    } else {
        c
    }
}

/// `s` with each character put through the table of full-width and CJK punctuation.
pub open spec fn mapped_punct(s: Seq<char>) -> Seq<char> {
    s.map_values(|c: char| punct_char(c))
}

/// Puts each character of `s` through the table of full-width and CJK punctuation.
fn map_punct(s: &Vec<char>) -> (r: Vec<char>)
    ensures
        r@ == mapped_punct(s@),
{
    let mut r: Vec<char> = Vec::new();
    let mut i: usize = 0;
    while i < s.len()
        invariant
            i <= s.len(),
            r@ == mapped_punct(s@.take(i as int)),
        decreases s.len() - i,
    {
        r.push(map_punct_char(s[i]));
        assert(mapped_punct(s@.take(i + 1)) =~= mapped_punct(s@.take(i as int)).push(
            punct_char(s@[i as int]),
        ));
        i += 1;
    }
    assert(s@.take(s.len() as int) == s@);
    r
}

/// The languages that write a decimal comma.
pub open spec fn writes_decimal_comma(lang: Language) -> bool {
    lang == Language::De || lang == Language::Es || lang == Language::Fr || lang == Language::Cz
        || lang == Language::Cs
}

/// A punctuation normalizer for one language, with five switches.
pub struct MosesPunctNormalizer {
    lang: Language,
    penn: Option<bool>,
    norm_quote_commas: Option<bool>,
    norm_numbers: Option<bool>,
    pre_replace_unicode_punct: Option<bool>,
    post_remove_control_chars: Option<bool>,
}

impl MosesPunctNormalizer {
    /// The language of the normalizer.
    pub closed spec fn language(self) -> Language {
        self.lang
    }

    /// Whether the Penn Treebank quote substitutions are made (by default they are).
    pub closed spec fn penn_on(self) -> bool {
        self.penn != Some(false)
    }

    /// Whether commas and periods round closing quotes are moved (by default they are).
    pub closed spec fn quote_commas_on(self) -> bool {
        self.norm_quote_commas != Some(false)
    }

    /// Whether no-break spaces between digits become decimal marks (by default they do).
    pub closed spec fn numbers_on(self) -> bool {
        self.norm_numbers != Some(false)
    }

    /// Whether full-width and CJK punctuation is replaced first (by default it is).
    pub closed spec fn unicode_punct_on(self) -> bool {
        self.pre_replace_unicode_punct != Some(false)
    }

    /// Whether control characters are removed last (by default they are not).
    pub closed spec fn control_removal_on(self) -> bool {
        self.post_remove_control_chars == Some(true)
    }

    /// What the normalizer makes of `text`.
    pub open spec fn normalized(self, text: Seq<char>) -> Seq<char> {
        let t1 = if self.unicode_punct_on() {
            rewritten_by(mapped_punct(text), unicode_stop_rules())
        } else {
            text
        };
        let t2 = rewritten_by(t1, whitespace_rules());
        let t3 = if self.penn_on() {
            rewritten_by(t2, penn_quote_rules())
        } else {
            t2
        };
        let t4 = rewritten_by(t3, unicode_quote_rules());
        let t5 = rewritten_by(t4, french_quote_rules());
        let t6 = rewritten_by(t5, pseudo_space_rules());
        let t7 = if self.penn_on() {
            rewritten_by(t6, penn_quote_rules())
        } else {
            t6
        };
        let lang = self.language();
        let t8 = if !self.quote_commas_on() {
            t7
        } else if lang == Language::En {
            rewritten_by(t7, english_quote_comma_rules())
        } else if lang == Language::De || lang == Language::Es || lang == Language::Fr {
            rewritten_by(t7, romance_quote_comma_rules())
        } else {
            t7
        };
        let t9 = if !self.numbers_on() {
            t8
        } else if writes_decimal_comma(lang) {
            rewritten_by(t8, decimal_comma_rules())
        } else {
            rewritten_by(t8, decimal_point_rules())
        };
        if self.control_removal_on() {
            rewritten_by(t9, control_rules())
        } else {
            t9
        }
    }

    /// A normalizer for `lang` with every switch at its default.
    pub fn new(lang: Language) -> (r: MosesPunctNormalizer)
        ensures
            r.language() == lang,
            r.penn_on(),
            r.quote_commas_on(),
            r.numbers_on(),
            r.unicode_punct_on(),
            !r.control_removal_on(),
    {
        MosesPunctNormalizer::new_with_options(lang, None, None, None, None, None)
    }

    /// A normalizer for `lang`; a switch left `None` takes its default.
    pub fn new_with_options(
        lang: Language,
        penn: Option<bool>,
        norm_quote_commas: Option<bool>,
        norm_numbers: Option<bool>,
        pre_replace_unicode_punct: Option<bool>,
        post_remove_control_chars: Option<bool>,
    ) -> (r: MosesPunctNormalizer)
        ensures
            r.language() == lang,
            r.penn_on() == (penn != Some(false)),
            r.quote_commas_on() == (norm_quote_commas != Some(false)),
            r.numbers_on() == (norm_numbers != Some(false)),
            r.unicode_punct_on() == (pre_replace_unicode_punct != Some(false)),
            r.control_removal_on() == (post_remove_control_chars == Some(true)),
    {
        MosesPunctNormalizer {
            lang,
            penn,
            norm_quote_commas,
            norm_numbers,
            pre_replace_unicode_punct,
            post_remove_control_chars,
        }
    }

    /// Normalizes the punctuation of `text`.
    pub fn normalize(&self, text: &str) -> (r: String)
        ensures
            r@ == self.normalized(text@),
    {
        let t1 = if self.pre_replace_unicode_punct != Some(false) {
            rewrite_by(string_of(&map_punct(&chars_of(text))).as_str(), &unicode_stop_table())
        } else {
            text.to_owned()
        };
        let t2 = rewrite_by(t1.as_str(), &whitespace_table());
        let penn = self.penn != Some(false);
        let t3 = if penn {
            rewrite_by(t2.as_str(), &penn_quote_table())
        } else {
            t2
        };
        let t4 = rewrite_by(t3.as_str(), &unicode_quote_table());
        let t5 = rewrite_by(t4.as_str(), &french_quote_table());
        let t6 = rewrite_by(t5.as_str(), &pseudo_space_table());
        let t7 = if penn {
            rewrite_by(t6.as_str(), &penn_quote_table())
        } else {
            t6
        };
        let lang = self.lang;
        let t8 = if self.norm_quote_commas == Some(false) {
            t7
        } else if lang == Language::En {
            rewrite_by(t7.as_str(), &english_quote_comma_table())
        } else if lang == Language::De || lang == Language::Es || lang == Language::Fr {
            rewrite_by(t7.as_str(), &romance_quote_comma_table())
        } else {
            t7
        };
        let t9 = if self.norm_numbers == Some(false) {
            t8
        } else if lang == Language::De || lang == Language::Es || lang == Language::Fr || lang
            == Language::Cz || lang == Language::Cs {
            rewrite_by(t8.as_str(), &decimal_comma_table())
        } else {
            rewrite_by(t8.as_str(), &decimal_point_table())
        };
        if self.post_remove_control_chars == Some(true) {
            rewrite_by(t9.as_str(), &control_table())
        } else {
            t9
        }
    }
}

} // verus!
