use vstd::prelude::*;

verus! {

/// Whether the regular expression written `pat` accepts some substring of
/// `text`. The match depends on the pattern and the text alone.
pub uninterp spec fn regex_accepts(pat: Seq<char>, text: Seq<char>) -> bool;

/// Whether the text `pat` is a well-formed regular expression.
pub uninterp spec fn regex_compiles(pat: Seq<char>) -> bool;

#[verifier::external_type_specification]
#[verifier::external_body]
pub struct ExRegex(regex::Regex);

/// A compiled deduplication-key pattern, kept together with the text it was
/// compiled from so that contracts can speak of the pattern text.
pub struct Pattern {
    text: String,
    re: regex::Regex,
}

impl Pattern {
    /// The pattern text this matcher was compiled from.
    pub closed spec fn pat(&self) -> Seq<char> {
        self.text@
    }

    /// Relies on regex::Regex::new: whether a pattern text compiles is a
    /// property of the text alone, and the compiled matcher holds exactly
    /// that pattern.
    #[verifier::external_body]
    pub fn new(pat: &str) -> (r: Option<Pattern>)
        ensures
            (r is Some) == regex_compiles(pat@),
            r is Some ==> r->0.pat() == pat@,
    {
        match regex::Regex::new(pat) {
            Ok(re) => Some(Pattern { text: pat.to_owned(), re }),
            Err(_) => None,
        }
    }

    /// Relies on regex::Regex::is_match: whether the pattern matches is a
    /// function of the pattern text and the searched text alone.
    #[verifier::external_body]
    pub fn is_match(&self, text: &String) -> (r: bool)
        ensures
            r == regex_accepts(self.pat(), text@),
    {
        self.re.is_match(text)
    }
}

/// How deduplication keys are selected: by an exact list of field names, or
/// by a list of regular-expression patterns matched against field names.
/// The two modes are mutually exclusive.
pub enum KeySelector {
    ByName(Vec<String>),
    ByPattern(Vec<Pattern>),
}

/// Whether some name in `names` is exactly `key`.
pub open spec fn name_matches(names: Seq<String>, key: Seq<char>) -> bool {
    exists|i: int| 0 <= i < names.len() && (#[trigger] names[i])@ == key
}

/// Whether some pattern in `ps` accepts `key`.
pub open spec fn pattern_matches(ps: Seq<Pattern>, key: Seq<char>) -> bool {
    exists|i: int| 0 <= i < ps.len() && regex_accepts((#[trigger] ps[i]).pat(), key)
}

/// Whether a field named `key` is a deduplication key under `sel`.
pub open spec fn key_matches(sel: KeySelector, key: Seq<char>) -> bool {
    match sel {
        KeySelector::ByName(names) => name_matches(names@, key),
        KeySelector::ByPattern(ps) => pattern_matches(ps@, key),
    }
}

/// Whether the field named `key` is selected as a deduplication key.
pub fn matches_key(sel: &KeySelector, key: &String) -> (r: bool)
    ensures
        r == key_matches(*sel, key@),
{
    match sel {
        KeySelector::ByName(names) => {
            let mut i: usize = 0;
            while i < names.len()
                invariant
                    *sel == KeySelector::ByName(*names),
                    i <= names.len(),
                    forall|k: int| 0 <= k < i ==> (#[trigger] names@[k])@ != key@,
                decreases names.len() - i,
            {
                if names[i] == *key {
                    proof {
                        assert(name_matches(names@, key@));
                    }
                    return true;
                }
                i = i + 1;
            }
            false
        },
        KeySelector::ByPattern(ps) => {
            let mut i: usize = 0;
            while i < ps.len()
                invariant
                    *sel == KeySelector::ByPattern(*ps),
                    i <= ps.len(),
                    forall|k: int| 0 <= k < i ==> !regex_accepts((#[trigger] ps@[k]).pat(), key@),
                decreases ps.len() - i,
            {
                if ps[i].is_match(key) {
                    proof {
                        assert(pattern_matches(ps@, key@));
                    }
                    return true;
                }
                i = i + 1;
            }
            false
        },
    }
}

} // verus!
