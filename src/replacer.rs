//! The compiled pattern and its replacement, and the text transform.
use vstd::prelude::*;
use vstd::string::StringExecFns;
use crate::text::{
    chars_of, lemma_literal_no_occurrence, lemma_unescape_plain, matches_at, occurs, occurs_at,
    replace_literal, replace_literal_str, unescape, unescape_text,
};

verus! {

#[verifier::external_type_specification]
#[verifier::external_body]
pub struct ExRegex(regex::Regex);

#[verifier::external_type_specification]
#[verifier::external_body]
pub struct ExRegexError(regex::Error);

/// Whether `pattern` is a valid expression of the regex dialect.
pub uninterp spec fn regex_compiles(pattern: Seq<char>) -> bool;

/// What `replace_all` of a compiled regex gives for a text and a template.
pub uninterp spec fn regex_replaced(re: regex::Regex, text: Seq<char>, template: Seq<char>) -> Seq<
    char,
>;

/// Whether a compiled regex matches somewhere in a text.
pub uninterp spec fn regex_finds(re: regex::Regex, text: Seq<char>) -> bool;

/// Relies on regex::Regex::new: it fails exactly on patterns that do not compile.
#[verifier::external_body]
fn compile(pattern: &str) -> (r: Result<regex::Regex, regex::Error>)
    ensures
        r is Ok <==> regex_compiles(pattern@),
{
    regex::Regex::new(pattern)
}

/// Relies on regex::Regex::replace_all: every non-overlapping match replaced
/// by the expanded template; with no match, the text comes back unchanged.
#[verifier::external_body]
fn regex_replace_all(re: &regex::Regex, text: &str, template: &str) -> (r: String)
    ensures
        r@ == regex_replaced(*re, text@, template@),
        !regex_finds(*re, text@) ==> r@ == text@,
{
    re.replace_all(text, template).into_owned()
}

/// Relies on regex::Regex::is_match: whether the regex matches anywhere in the text.
#[verifier::external_body]
fn regex_is_match(re: &regex::Regex, text: &str) -> (r: bool)
    ensures
        r == regex_finds(*re, text@),
{
    re.is_match(text)
}

/// Why a replacer could not be built.
#[derive(Debug)]
pub enum ReplaceError {
    /// The pattern is not a valid regular expression.
    Pattern(regex::Error),
}

/// A pattern and its replacement: a compiled regular expression with a
/// template, or a plain search string with a plain replacement.
pub enum Replacer<'a> {
    Regex(regex::Regex, &'a str),
    Literal(&'a str, &'a str),
}

impl<'a> Replacer<'a> {
    /// Whether the pattern occurs in `text`.
    pub open spec fn finds(&self, text: Seq<char>) -> bool {
        match self {
            Replacer::Regex(re, _) => regex_finds(*re, text),
            Replacer::Literal(search, _) => occurs(text, search@),
        }
    }

    /// `text` after the replacement: for a regular expression, every match
    /// replaced by the expanded template and the escapes of the result
    /// turned into characters; for a literal, every occurrence replaced.
    pub open spec fn replaced(&self, text: Seq<char>) -> Seq<char> {
        match self {
            Replacer::Regex(re, template) => unescape_text(regex_replaced(*re, text, template@)),
            Replacer::Literal(search, replacement) => replace_literal(
                text,
                search@,
                replacement@,
            ),
        }
    }

    /// The replacements of the texts, one after another in their order, with
    /// nothing between them.
    pub open spec fn replaced_in_order(&self, contents: Seq<String>) -> Seq<char>
        decreases contents.len(),
    {
        if contents.len() == 0 {
            Seq::<char>::empty()
        } else {
            self.replaced_in_order(contents.drop_last()) + self.replaced(contents.last()@)
        }
    }

    /// A literal replacer when `is_literal`, else the pattern compiled as a
    /// regular expression; an invalid expression is an error.
    pub fn new(look_for: &'a str, replace_with: &'a str, is_literal: bool) -> (r: Result<
        Replacer<'a>,
        ReplaceError,
    >)
        ensures
            is_literal ==> r == Ok::<Replacer<'a>, ReplaceError>(
                Replacer::Literal(look_for, replace_with),
            ),
            !is_literal ==> (r is Ok <==> regex_compiles(look_for@)),
            !is_literal && r is Ok ==> r->Ok_0 is Regex && r->Ok_0->Regex_1 == replace_with,
            !is_literal && r is Err ==> r->Err_0 is Pattern,
    {
        if is_literal {
            return Ok(Replacer::Literal(look_for, replace_with));
        }
        match compile(look_for) {
            Ok(re) => Ok(Replacer::Regex(re, replace_with)),
            Err(e) => Err(ReplaceError::Pattern(e)),
        }
    }

    /// Whether the pattern occurs in `content`.
    pub fn is_match(&self, content: &str) -> (r: bool)
        ensures
            r == self.finds(content@),
    {
        match self {
            Replacer::Regex(re, _) => regex_is_match(re, content),
            Replacer::Literal(search, _) => contains_literal(content, search),
        }
    }

    /// `content` with the replacement applied. Where the pattern does not
    /// occur, the content comes back unchanged, for a regular expression as
    /// long as the content holds no backslash that could start an escape.
    pub fn replace(&self, content: &str) -> (r: String)
        ensures
            r@ == self.replaced(content@),
            !self.finds(content@) && (self is Literal || !content@.contains('\\')) ==> r@
                == content@,
    {
        match self {
            Replacer::Regex(re, template) => {
                let replaced = regex_replace_all(re, content, template);
                proof {
                    if !regex_finds(*re, content@) && !content@.contains('\\') {
                        lemma_unescape_plain(replaced@);
                    }
                }
                unescape(replaced.as_str())
            },
            Replacer::Literal(search, replacement) => {
                proof {
                    if !occurs(content@, search@) {
                        if search@.len() == 0 {
                            assert(content@.subrange(0, 0) =~= search@);
                            assert(occurs_at(content@, search@, 0));
                        }
                        lemma_literal_no_occurrence(content@, search@, replacement@);
                    }
                }
                replace_literal_str(content, search, replacement)
            },
        }
    }

    /// The replacement of each text, concatenated in the order of the texts.
    pub fn replace_in_order(&self, contents: &Vec<String>) -> (r: String)
        ensures
            r@ == self.replaced_in_order(contents@),
    {
        let mut out = String::new();
        let mut i: usize = 0;
        while i < contents.len()
            invariant
                i <= contents@.len(),
                out@ == self.replaced_in_order(contents@.take(i as int)),
            decreases contents@.len() - i,
        {
            let piece = self.replace(contents[i].as_str());
            out.append(piece.as_str());
            assert(contents@.take(i + 1).drop_last() =~= contents@.take(i as int));
            i = i + 1;
        }
        assert(contents@.take(i as int) =~= contents@);
        out
    }

    /// Replacing the texts of two lists in order gives the output of the
    /// first list followed directly by that of the second.
    pub proof fn lemma_in_order_append(&self, first: Seq<String>, second: Seq<String>)
        ensures
            self.replaced_in_order(first + second) == self.replaced_in_order(first)
                + self.replaced_in_order(second),
        decreases second.len(),
    {
        if second.len() == 0 {
            assert(first + second =~= first);
        } else {
            assert((first + second).drop_last() =~= first + second.drop_last());
            self.lemma_in_order_append(first, second.drop_last());
        }
    }

    /// The output for three texts is the replacement of the first, then of
    /// the second, then of the third.
    pub proof fn lemma_in_order_three(&self, a: String, b: String, c: String)
        ensures
            self.replaced_in_order(seq![a, b, c]) == self.replaced(a@) + self.replaced(b@)
                + self.replaced(c@),
    {
        let s = seq![a, b, c];
        assert(s.drop_last() =~= seq![a, b]);
        assert(seq![a, b].drop_last() =~= seq![a]);
        assert(seq![a].drop_last() =~= Seq::<String>::empty());
        assert(seq![a].last() == a);
        assert(seq![a, b].last() == b);
        assert(self.replaced_in_order(Seq::<String>::empty()) == Seq::<char>::empty());
        assert(self.replaced_in_order(seq![a]) =~= self.replaced(a@));
        assert(self.replaced_in_order(seq![a, b]) =~= self.replaced(a@) + self.replaced(b@));
        assert(s.last() == c);
    }
}

/// Whether `search` occurs in `text`.
pub fn contains_literal(text: &str, search: &str) -> (r: bool)
    ensures
        r == occurs(text@, search@),
{
    let t = chars_of(text);
    let pat = chars_of(search);
    let mut i: usize = 0;
    while i < t.len()
        invariant
            t@ == text@,
            pat@ == search@,
            i <= t@.len(),
            forall|k: int| 0 <= k < i ==> !occurs_at(t@, pat@, k),
        decreases t@.len() - i,
    {
        if matches_at(&t, &pat, i) {
            return true;
        }
        i = i + 1;
    }
    if matches_at(&t, &pat, i) {
        return true;
    }
    assert forall|k: int| !occurs_at(t@, pat@, k) by {
        if 0 <= k <= i {
        }
    }
    false
}

} // verus!
