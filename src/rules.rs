use vstd::prelude::*;

use crate::rewrite::rules_view;

verus! {

/// Spaces a comma off, unless digits stand on both sides of it.
pub open spec fn comma_rules() -> Seq<(Seq<char>, Seq<char>)> {
    seq![
        ("([^\\p{N}])[,]"@, "$1 , "@),
        ("[,]([^\\p{N}])"@, " , $1"@),
        ("([\\p{N}])[,]$"@, "$1 , "@),
    ]
}

/// Spaces a comma off, unless digits stand on both sides of it.
pub(crate) fn comma_table() -> (r: Vec<(&'static str, &'static str)>)
    ensures
        rules_view(r@) == comma_rules(),
{
    let mut v: Vec<(&'static str, &'static str)> = Vec::new();
    v.push(("([^\\p{N}])[,]", "$1 , "));
    v.push(("[,]([^\\p{N}])", " , $1"));
    v.push(("([\\p{N}])[,]$", "$1 , "));
    assert(rules_view(v@) =~= comma_rules());
    v
}

/// Spaces apostrophes in English: a contraction keeps it at the start of its second part.
pub open spec fn english_apostrophe_rules() -> Seq<(Seq<char>, Seq<char>)> {
    seq![
        ("([^\\p{Alphabetic}])[']([^\\p{Alphabetic}])"@, "$1 ' $2"@),
        ("([^\\p{Alphabetic}\\p{N}])[']([\\p{Alphabetic}])"@, "$1 ' $2"@),
        ("([\\p{Alphabetic}])[']([^\\p{Alphabetic}])"@, "$1 ' $2"@),
        ("([\\p{Alphabetic}])[']([\\p{Alphabetic}])"@, "$1 '$2"@),
        ("([\\p{N}])[']([s])"@, "$1 '$2"@),
    ]
}

/// Spaces apostrophes in English: a contraction keeps it at the start of its second part.
pub(crate) fn english_apostrophe_table() -> (r: Vec<(&'static str, &'static str)>)
    ensures
        rules_view(r@) == english_apostrophe_rules(),
{
    let mut v: Vec<(&'static str, &'static str)> = Vec::new();
    v.push(("([^\\p{Alphabetic}])[']([^\\p{Alphabetic}])", "$1 ' $2"));
    v.push(("([^\\p{Alphabetic}\\p{N}])[']([\\p{Alphabetic}])", "$1 ' $2"));
    v.push(("([\\p{Alphabetic}])[']([^\\p{Alphabetic}])", "$1 ' $2"));
    v.push(("([\\p{Alphabetic}])[']([\\p{Alphabetic}])", "$1 '$2"));
    v.push(("([\\p{N}])[']([s])", "$1 '$2"));
    assert(rules_view(v@) =~= english_apostrophe_rules());
    v
}

/// Spaces apostrophes in French and Italian: an elision keeps it at the end of its first part.
pub open spec fn romance_apostrophe_rules() -> Seq<(Seq<char>, Seq<char>)> {
    seq![
        ("([^\\p{Alphabetic}])[']([^\\p{Alphabetic}])"@, "$1 ' $2"@),
        ("([^\\p{Alphabetic}])[']([\\p{Alphabetic}])"@, "$1 ' $2"@),
        ("([\\p{Alphabetic}])[']([^\\p{Alphabetic}])"@, "$1 ' $2"@),
        ("([\\p{Alphabetic}])[']([\\p{Alphabetic}])"@, "$1' $2"@),
    ]
}

/// Spaces apostrophes in French and Italian: an elision keeps it at the end of its first part.
pub(crate) fn romance_apostrophe_table() -> (r: Vec<(&'static str, &'static str)>)
    ensures
        rules_view(r@) == romance_apostrophe_rules(),
{
    let mut v: Vec<(&'static str, &'static str)> = Vec::new();
    v.push(("([^\\p{Alphabetic}])[']([^\\p{Alphabetic}])", "$1 ' $2"));
    v.push(("([^\\p{Alphabetic}])[']([\\p{Alphabetic}])", "$1 ' $2"));
    v.push(("([\\p{Alphabetic}])[']([^\\p{Alphabetic}])", "$1 ' $2"));
    v.push(("([\\p{Alphabetic}])[']([\\p{Alphabetic}])", "$1' $2"));
    assert(rules_view(v@) =~= romance_apostrophe_rules());
    v
}

/// The first steps of Penn Treebank tokenization: quotes, ellipses, commas, symbols, slashes, the final period, and brackets.
pub open spec fn penn_opening_rules() -> Seq<(Seq<char>, Seq<char>)> {
    seq![
        ("\\s+"@, " "@),
        ("[\\x00-\\x1F]"@, ""@),
        ("^``"@, "`` "@),
        ("^\""@, "`` "@),
        ("^`([^`])"@, "` $1"@),
        ("^'"@, "`  "@),
        ("([ (\\[{<])\""@, "$1 `` "@),
        ("([ (\\[{<])``"@, "$1 `` "@),
        ("([ (\\[{<])`([^`])"@, "$1 ` $2"@),
        ("([ (\\[{<])'"@, "$1 ` "@),
        ("\\.\\.\\."@, " _ELLIPSIS_ "@),
        ("([^\\p{N}])[,]([^\\p{N}])"@, "$1 , $2"@),
        ("([\\p{N}])[,]([^\\p{N}])"@, "$1 , $2"@),
        ("([^\\p{N}])[,]([\\p{N}])"@, "$1 , $2"@),
        ("([;:@#\\$%&\\p{Sc}\\p{So}])"@, " $1 "@),
        ("([\\p{Alphabetic}\\p{Nd}])/([\\p{Alphabetic}\\p{Nd}])"@, "$1 @/@ $2"@),
        ("([^.])([.])([\\]\\)}>\"']*) ?$"@, "$1 $2$3"@),
        ("([?!])"@, " $1 "@),
        ("([\\]\\[(){}<>])"@, " $1 "@),
    ]
}

/// The first steps of Penn Treebank tokenization: quotes, ellipses, commas, symbols, slashes, the final period, and brackets.
pub(crate) fn penn_opening_table() -> (r: Vec<(&'static str, &'static str)>)
    ensures
        rules_view(r@) == penn_opening_rules(),
{
    let mut v: Vec<(&'static str, &'static str)> = Vec::new();
    v.push(("\\s+", " "));
    v.push(("[\\x00-\\x1F]", ""));
    v.push(("^``", "`` "));
    v.push(("^\"", "`` "));
    v.push(("^`([^`])", "` $1"));
    v.push(("^'", "`  "));
    v.push(("([ (\\[{<])\"", "$1 `` "));
    v.push(("([ (\\[{<])``", "$1 `` "));
    v.push(("([ (\\[{<])`([^`])", "$1 ` $2"));
    v.push(("([ (\\[{<])'", "$1 ` "));
    v.push(("\\.\\.\\.", " _ELLIPSIS_ "));
    v.push(("([^\\p{N}])[,]([^\\p{N}])", "$1 , $2"));
    v.push(("([\\p{N}])[,]([^\\p{N}])", "$1 , $2"));
    v.push(("([^\\p{N}])[,]([\\p{N}])", "$1 , $2"));
    v.push(("([;:@#\\$%&\\p{Sc}\\p{So}])", " $1 "));
    v.push(("([\\p{Alphabetic}\\p{Nd}])/([\\p{Alphabetic}\\p{Nd}])", "$1 @/@ $2"));
    v.push(("([^.])([.])([\\]\\)}>\"']*) ?$", "$1 $2$3"));
    v.push(("([?!])", " $1 "));
    v.push(("([\\]\\[(){}<>])", " $1 "));
    assert(rules_view(v@) =~= penn_opening_rules());
    v
}

/// The middle steps of Penn Treebank tokenization: bracket names, double quotes, and contractions.
pub open spec fn penn_bracket_rules() -> Seq<(Seq<char>, Seq<char>)> {
    seq![
        ("\\("@, "-LRB-"@),
        ("\\)"@, "-RRB-"@),
        ("\\["@, "-LSB-"@),
        ("\\]"@, "-RSB-"@),
        ("\\{"@, "-LCB-"@),
        ("\\}"@, "-RCB-"@),
        ("--"@, " -- "@),
        ("^"@, " "@),
        ("$"@, " "@),
        ("\""@, " '' "@),
        ("([^'])' "@, "$1 ' "@),
        ("'([sSmMdD]) "@, " '$1 "@),
        ("'ll"@, " 'll "@),
        ("'re"@, " 're "@),
        ("'ve"@, " 've "@),
        ("n't"@, " n't"@),
        ("'LL"@, " 'LL "@),
        ("'RE"@, " 'RE "@),
        ("'VE"@, " 'VE "@),
        ("N'T"@, " N'T "@),
        (" ([Cc])annot "@, " ${1}an not "@),
        (" ([Dd])'ye "@, " ${1}' ye "@),
        (" ([Gg])imme "@, " ${1}im me "@),
        (" ([Gg])onna "@, " ${1}on na "@),
        (" ([Gg])otta "@, " ${1}ot ta "@),
        (" ([Ll])emme "@, " ${1}em me "@),
        (" ([Mm])ore'n "@, " ${1}ore 'n "@),
        (" '([Tt])is "@, " '${1} is "@),
        (" '([Tt])was "@, " '${1} was "@),
        (" ([Ww])anna "@, " ${1}an na "@),
    ]
}

/// The middle steps of Penn Treebank tokenization: bracket names, double quotes, and contractions.
pub(crate) fn penn_bracket_table() -> (r: Vec<(&'static str, &'static str)>)
    ensures
        rules_view(r@) == penn_bracket_rules(),
{
    let mut v: Vec<(&'static str, &'static str)> = Vec::new();
    v.push(("\\(", "-LRB-"));
    v.push(("\\)", "-RRB-"));
    v.push(("\\[", "-LSB-"));
    v.push(("\\]", "-RSB-"));
    v.push(("\\{", "-LCB-"));
    v.push(("\\}", "-RCB-"));
    v.push(("--", " -- "));
    v.push(("^", " "));
    v.push(("$", " "));
    v.push(("\"", " '' "));
    v.push(("([^'])' ", "$1 ' "));
    v.push(("'([sSmMdD]) ", " '$1 "));
    v.push(("'ll", " 'll "));
    v.push(("'re", " 're "));
    v.push(("'ve", " 've "));
    v.push(("n't", " n't"));
    v.push(("'LL", " 'LL "));
    v.push(("'RE", " 'RE "));
    v.push(("'VE", " 'VE "));
    v.push(("N'T", " N'T "));
    v.push((" ([Cc])annot ", " ${1}an not "));
    v.push((" ([Dd])'ye ", " ${1}' ye "));
    v.push((" ([Gg])imme ", " ${1}im me "));
    v.push((" ([Gg])onna ", " ${1}on na "));
    v.push((" ([Gg])otta ", " ${1}ot ta "));
    v.push((" ([Ll])emme ", " ${1}em me "));
    v.push((" ([Mm])ore'n ", " ${1}ore 'n "));
    v.push((" '([Tt])is ", " '${1} is "));
    v.push((" '([Tt])was ", " '${1} was "));
    v.push((" ([Ww])anna ", " ${1}an na "));
    assert(rules_view(v@) =~= penn_bracket_rules());
    v
}

/// The last steps of Penn Treebank tokenization: ellipses back, spaces, and escapes.
pub open spec fn penn_closing_rules() -> Seq<(Seq<char>, Seq<char>)> {
    seq![
        ("_ELLIPSIS_"@, "..."@),
        ("  *"@, " "@),
        ("^ *"@, ""@),
        (" *$"@, ""@),
        ("&"@, "&amp;"@),
        ("\\|"@, "&#124;"@),
        ("<"@, "&lt;"@),
        (">"@, "&gt;"@),
        ("\""@, "&quot;"@),
        ("'"@, "&apos;"@),
    ]
}

/// The last steps of Penn Treebank tokenization: ellipses back, spaces, and escapes.
pub(crate) fn penn_closing_table() -> (r: Vec<(&'static str, &'static str)>)
    ensures
        rules_view(r@) == penn_closing_rules(),
{
    let mut v: Vec<(&'static str, &'static str)> = Vec::new();
    v.push(("_ELLIPSIS_", "..."));
    v.push(("  *", " "));
    v.push(("^ *", ""));
    v.push((" *$", ""));
    v.push(("&", "&amp;"));
    v.push(("\\|", "&#124;"));
    v.push(("<", "&lt;"));
    v.push((">", "&gt;"));
    v.push(("\"", "&quot;"));
    v.push(("'", "&apos;"));
    assert(rules_view(v@) =~= penn_closing_rules());
    v
}

} // verus!
