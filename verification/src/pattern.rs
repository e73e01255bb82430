//! Regular-expression matching through the `regex` crate.
use vstd::prelude::*;

verus! {

#[verifier::external_type_specification]
#[verifier::external_body]
pub struct ExRegex(regex::Regex);

/// Name for whether `regex::Regex::new` accepts the pattern.
pub uninterp spec fn regex_compiles(pattern: Seq<char>) -> bool;

/// Name for what `regex::Regex::is_match` answers for the regex compiled from `pattern` on
/// `text`: whether the pattern matches anywhere in the text.
pub uninterp spec fn regex_is_match(pattern: Seq<char>, text: Seq<char>) -> bool;

/// Name for what `regex::Regex::captures` gives on `text` for the regex compiled from `pattern`,
/// read through `Captures::name` for `group`: the text of that group in the first match, when
/// there is a match and the group took part in it.
pub uninterp spec fn regex_first_group(pattern: Seq<char>, text: Seq<char>, group: Seq<char>) -> Option<
    Seq<char>,
>;

/// Name for what `regex::Regex::captures_iter` gives on `text` for the regex compiled from
/// `pattern`, read through `Captures::name` for the groups `g1` and `g2`: for each successive
/// match, the texts of the two groups when they took part.
pub uninterp spec fn regex_group_pairs(
    pattern: Seq<char>,
    text: Seq<char>,
    g1: Seq<char>,
    g2: Seq<char>,
) -> Seq<(Option<Seq<char>>, Option<Seq<char>>)>;

/// The character views of optional texts.
pub open spec fn opt_view(o: Option<String>) -> Option<Seq<char>> {
    match o {
        Some(s) => Some(s@),
        None => None,
    }
}

/// A compiled regular expression together with the pattern it was compiled from.
pub struct Pattern {
    re: regex::Regex,
    source: String,
}

impl Pattern {
    /// The pattern this expression was compiled from.
    pub closed spec fn source(&self) -> Seq<char> {
        self.source@
    }

    /// Compiles `source` with `regex::Regex::new`; `None` when the crate rejects the pattern.
    #[verifier::external_body]
    pub fn new(source: &str) -> (r: Option<Pattern>)
        ensures
            r is Some <==> regex_compiles(source@),
            r matches Some(p) ==> p.source() == source@,
    {
        match regex::Regex::new(source) {
            Ok(re) => Some(Pattern { re, source: source.to_owned() }),
            Err(_) => None,
        }
    }

    /// Calls `regex::Regex::is_match`. The contract relies on the only constructor, `new`,
    /// storing the pattern that the expression was compiled from.
    #[verifier::external_body]
    pub fn is_match(&self, text: &str) -> (b: bool)
        ensures
            b == regex_is_match(self.source(), text@),
    {
        self.re.is_match(text)
    }

    /// Calls `regex::Regex::captures` and reads the group named `group` of the first match.
    #[verifier::external_body]
    pub fn first_group(&self, text: &str, group: &str) -> (r: Option<String>)
        ensures
            opt_view(r) == regex_first_group(self.source(), text@, group@),
    {
        self.re.captures(text).and_then(|c| c.name(group).map(|m| m.as_str().to_owned()))
    }

    /// Calls `regex::Regex::captures_iter` and reads the groups `g1` and `g2` of each match.
    #[verifier::external_body]
    pub fn group_pairs(&self, text: &str, g1: &str, g2: &str) -> (r: Vec<(Option<String>, Option<String>)>)
        ensures
            r@.map_values(|p: (Option<String>, Option<String>)| (opt_view(p.0), opt_view(p.1)))
                == regex_group_pairs(self.source(), text@, g1@, g2@),
    {
        self.re
            .captures_iter(text)
            .map(|c| (c.name(g1).map(|m| m.as_str().to_owned()), c.name(g2).map(|m| m.as_str().to_owned())))
            .collect()
    }
}

} // verus!
