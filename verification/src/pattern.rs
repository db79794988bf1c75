//! Regular expressions, compiled and matched by the `regex` crate.

use regex::Regex;
use vstd::prelude::*;

use crate::address::{addresses_replaced, PRIVATE_IP_RE};

verus! {

/// A compiled regular expression of the `regex` crate.
#[verifier::external_type_specification]
#[verifier::external_body]
pub struct ExRegex(Regex);

/// The pattern a regular expression was compiled from, what `Regex::as_str` gives.
pub uninterp spec fn regex_source(regex: Regex) -> Seq<char>;

/// Whether a pattern is one that `Regex::new` accepts.
pub uninterp spec fn regex_compiles(pattern: Seq<char>) -> bool;

/// The groups of the leftmost match of a pattern in a text, the whole match first and then each
/// group in the order in which it opens, a group that took no part being `None`.
pub uninterp spec fn regex_captures(
    pattern: Seq<char>,
    text: Seq<char>,
) -> Option<Seq<Option<Seq<char>>>>;

/// The text with every match of a pattern, taken from the left and without overlap, replaced.
pub uninterp spec fn regex_replaced(
    pattern: Seq<char>,
    text: Seq<char>,
    with: Seq<char>,
) -> Seq<char>;

/// The groups of every match of a pattern in a text, taken from the left and without overlap.
pub uninterp spec fn regex_captures_all(
    pattern: Seq<char>,
    text: Seq<char>,
) -> Seq<Seq<Option<Seq<char>>>>;

/// `Regex::new` compiles a pattern, or refuses it; a compiled expression keeps its pattern. The
/// private address pattern is well formed and small, so it is not refused.
#[verifier::external_body]
fn regex_new(pattern: &str) -> (regex: Option<Regex>)
    ensures
        match regex {
            Some(regex) => regex_compiles(pattern@) && regex_source(regex) == pattern@,
            None => !regex_compiles(pattern@),
        },
        pattern@ == PRIVATE_IP_RE@ ==> regex is Some,
{
    Regex::new(pattern).ok()
}

/// `Regex::captures` gives the groups of the leftmost match. What they are depends on the
/// pattern and the text alone.
#[verifier::external_body]
fn regex_groups(regex: &Regex, text: &str) -> (groups: Option<Vec<Option<String>>>)
    ensures
        groups.deep_view() == regex_captures(regex_source(*regex), text@),
{
    regex.captures(text).map(
        |found| found.iter().map(|group| group.map(|group| group.as_str().to_string())).collect(),
    )
}

/// `Regex::captures_iter` gives the groups of every match in turn. What they are depends on the
/// pattern and the text alone.
#[verifier::external_body]
fn regex_groups_all(regex: &Regex, text: &str) -> (all: Vec<Vec<Option<String>>>)
    ensures
        all.deep_view() == regex_captures_all(regex_source(*regex), text@),
{
    regex.captures_iter(text).map(
        |found| found.iter().map(|group| group.map(|group| group.as_str().to_string())).collect(),
    ).collect()
}

/// `Regex::replace_all` replaces every match. A replacement without a dollar sign is taken
/// literally. By the documented syntax the private address pattern matches where 10 and three parts
/// of one to three digits stand with dots between them, with a word boundary on either side: no part
/// can leave a digit behind, as a dot or the boundary follows it. Matches are taken from the left
/// and do not overlap.
#[verifier::external_body]
fn regex_replace(regex: &Regex, text: &str, with: &str) -> (out: String)
    ensures
        out@ == regex_replaced(regex_source(*regex), text@, with@),
        regex_source(*regex) == PRIVATE_IP_RE@ && !with@.contains('$') ==> out@
            == addresses_replaced(text@, with@),
{
    regex.replace_all(text, with).into_owned()
}

/// The groups that a match captured, the whole match first.
pub struct Groups {
    pub groups: Vec<Option<String>>,
}

impl View for Groups {
    type V = Seq<Option<Seq<char>>>;

    open spec fn view(&self) -> Seq<Option<Seq<char>>> {
        self.groups.deep_view()
    }
}

impl DeepView for Groups {
    type V = Seq<Option<Seq<char>>>;

    open spec fn deep_view(&self) -> Seq<Option<Seq<char>>> {
        self@
    }
}

/// A group as text, empty where the group is absent or took no part.
pub open spec fn group_text(groups: Seq<Option<Seq<char>>>, at: int) -> Seq<char> {
    if 0 <= at < groups.len() && groups[at] is Some {
        groups[at]->0
    } else {
        seq![]
    }
}

impl Groups {
    /// A group as text, empty where the group is absent or took no part.
    pub fn text(&self, at: usize) -> (text: String)
        ensures
            text@ == group_text(self@, at as int),
    {
        if at < self.groups.len() {
            assert(self@[at as int] == self.groups@[at as int].deep_view());
            match &self.groups[at] {
                Some(text) => text.clone(),
                None => {
                    let text = String::new();
                    assert(text@ =~= seq![]);
                    text
                },
            }
        } else {
            let text = String::new();
            assert(text@ =~= seq![]);
            text
        }
    }

    /// Whether a group took part in the match.
    pub fn took_part(&self, at: usize) -> (yes: bool)
        ensures
            yes == (at < self@.len() && self@[at as int] is Some),
    {
        at < self.groups.len() && self.groups[at].is_some()
    }
}

/// A regular expression. One that the `regex` crate refuses matches nothing.
pub struct Pattern {
    regex: Option<Regex>,
    source: Ghost<Seq<char>>,
}

/// The groups of the leftmost match of a pattern in a text; a refused pattern matches nothing.
pub open spec fn matched(pattern: Seq<char>, text: Seq<char>) -> Option<Seq<Option<Seq<char>>>> {
    if regex_compiles(pattern) {
        regex_captures(pattern, text)
    } else {
        None
    }
}

/// The groups of every match of a pattern in a text; a refused pattern matches nothing.
pub open spec fn matched_all(pattern: Seq<char>, text: Seq<char>) -> Seq<Seq<Option<Seq<char>>>> {
    if regex_compiles(pattern) {
        regex_captures_all(pattern, text)
    } else {
        seq![]
    }
}

/// The text with every match of a pattern replaced; a refused pattern matches nothing.
pub open spec fn rewritten(pattern: Seq<char>, text: Seq<char>, with: Seq<char>) -> Seq<char> {
    if regex_compiles(pattern) {
        regex_replaced(pattern, text, with)
    } else {
        text
    }
}

impl View for Pattern {
    type V = Seq<char>;

    closed spec fn view(&self) -> Seq<char> {
        self.source@
    }
}

impl Pattern {
    #[verifier::type_invariant]
    spec fn well_formed(self) -> bool {
        match self.regex {
            Some(regex) => regex_compiles(self.source@) && regex_source(regex) == self.source@,
            None => !regex_compiles(self.source@) && self.source@ != PRIVATE_IP_RE@,
        }
    }

    /// Compiles a pattern.
    pub fn new(pattern: &str) -> (compiled: Pattern)
        ensures
            compiled@ == pattern@,
    {
        let regex: Option<Regex> = regex_new(pattern);
        Pattern { regex, source: Ghost(pattern@) }
    }

    /// The groups of the leftmost match in a text.
    pub fn captures(&self, text: &str) -> (groups: Option<Groups>)
        ensures
            match groups {
                Some(groups) => matched(self@, text@) == Some(groups@),
                None => matched(self@, text@) is None,
            },
    {
        proof {
            use_type_invariant(self);
        }
        match &self.regex {
            Some(regex) => match regex_groups(regex, text) {
                Some(groups) => Some(Groups { groups }),
                None => None,
            },
            None => None,
        }
    }

    /// The groups of every match in a text.
    pub fn captures_all(&self, text: &str) -> (all: Vec<Groups>)
        ensures
            all.deep_view() == matched_all(self@, text@),
    {
        proof {
            use_type_invariant(self);
        }
        let mut all: Vec<Groups> = Vec::new();
        match &self.regex {
            Some(regex) => {
                let found: Vec<Vec<Option<String>>> = regex_groups_all(regex, text);
                let ghost expected = found.deep_view();
                assert(expected.skip(0) =~= expected);
                for groups in iter: found
                    invariant
                        iter.seq() == found@,
                        expected == found.deep_view(),
                        all.deep_view() == expected.take(iter.index()),
                {
                    let ghost before = all.deep_view();
                    let ghost at = iter.index();
                    all.push(Groups { groups });
                    assert(all.deep_view() =~= before.push(groups.deep_view()));
                    assert(expected[at] == groups.deep_view());
                    assert(all.deep_view() =~= expected.take(at + 1));
                }
                assert(all.deep_view() =~= expected);
            },
            None => {
                assert(all.deep_view() =~= seq![]);
            },
        }
        all
    }

    /// The text with every match replaced; of the private address pattern, with every private
    /// address replaced.
    pub fn replace_all(&self, text: &str, with: &str) -> (out: String)
        ensures
            out@ == rewritten(self@, text@, with@),
            self@ == PRIVATE_IP_RE@ && !with@.contains('$') ==> out@ == addresses_replaced(
                text@,
                with@,
            ),
    {
        proof {
            use_type_invariant(self);
        }
        match &self.regex {
            Some(regex) => regex_replace(regex, text, with),
            None => text.to_string(),
        }
    }
}

/// The first of an ordered list of patterns, from place `from` on, that matches a text, with the
/// groups it captures.
pub open spec fn first_matched(patterns: Seq<Seq<char>>, text: Seq<char>, from: int) -> Option<
    (int, Seq<Option<Seq<char>>>),
>
    decreases patterns.len() - from,
{
    if from < 0 || from >= patterns.len() {
        None
    } else {
        match matched(patterns[from], text) {
            Some(groups) => Some((from, groups)),
            None => first_matched(patterns, text, from + 1),
        }
    }
}

/// An ordered list of patterns, tried in turn.
pub struct Rules {
    patterns: Vec<Pattern>,
}

impl View for Rules {
    type V = Seq<Seq<char>>;

    closed spec fn view(&self) -> Seq<Seq<char>> {
        self.patterns@.map_values(|pattern: Pattern| pattern@)
    }
}

/// What a rule list found: the place of the pattern that matched, and its groups.
pub type Found = Option<(usize, Groups)>;

/// What a rule list found, by the values it holds.
pub open spec fn found_view(found: Found) -> Option<(int, Seq<Option<Seq<char>>>)> {
    match found {
        Some((rule, groups)) => Some((rule as int, groups@)),
        None => None,
    }
}

impl Rules {
    /// An empty list of patterns.
    pub fn new() -> (rules: Rules)
        ensures
            rules@ == Seq::<Seq<char>>::empty(),
    {
        let rules = Rules { patterns: Vec::new() };
        assert(rules@ =~= seq![]);
        rules
    }

    /// The list with one more pattern at its end.
    pub fn with(self, pattern: &str) -> (rules: Rules)
        ensures
            rules@ == self@.push(pattern@),
    {
        let mut patterns: Vec<Pattern> = self.patterns;
        patterns.push(Pattern::new(pattern));
        let rules = Rules { patterns };
        assert(rules@ =~= self@.push(pattern@));
        rules
    }

    /// The first pattern that matches a text, with the groups it captures.
    pub fn first_match(&self, text: &str) -> (found: Found)
        ensures
            found_view(found) == first_matched(self@, text@, 0),
            found is Some ==> (found->0).0 < self@.len(),
    {
        for i in 0..self.patterns.len()
            invariant
                first_matched(self@, text@, 0) == first_matched(self@, text@, i as int),
        {
            assert(self@[i as int] == self.patterns@[i as int]@);
            match self.patterns[i].captures(text) {
                Some(groups) => {
                    return Some((i, groups));
                },
                None => {},
            }
        }
        None
    }
}

} // verus!
