use vstd::prelude::*;
use vstd::string::*;

verus! {

/// The pattern that a feature name has to match.
pub const FEATURE_PATTERN: &'static str = "^[a-z_][a-z_0-9]*$";

/// A character that may open a feature name: `a`..`z` or `_`.
pub open spec fn is_name_start(c: char) -> bool {
    ('a' <= c && c <= 'z') || c == '_'
}

/// A character that may follow the first one in a feature name.
pub open spec fn is_name_char(c: char) -> bool {
    is_name_start(c) || ('0' <= c && c <= '9')
}

/// The strings matched by `^[a-z_][a-z_0-9]*$`.
pub open spec fn is_feature_name(s: Seq<char>) -> bool {
    &&& s.len() > 0
    &&& is_name_start(s[0])
    &&& forall|i: int| 1 <= i < s.len() ==> is_name_char(#[trigger] s[i])
}

/// Relies on regex::Regex::new, which compiles the fixed feature pattern
/// without error, and on regex::Regex::is_match, which reports whether that
/// anchored pattern matches the whole of `s`.
#[verifier::external_body]
fn pattern_matches(pattern: &str, s: &str) -> (r: bool)
    requires
        pattern@ == FEATURE_PATTERN@,
    ensures
        r == is_feature_name(s@),
{
    regex::Regex::new(pattern).unwrap().is_match(s)
}

/// The name of an annotation column, such as `word` or `pos`.
#[derive(Debug, PartialEq, Eq, PartialOrd, Ord, Hash)]
pub struct Feature(String);

impl View for Feature {
    type V = Seq<char>;

    closed spec fn view(&self) -> Seq<char> {
        self.0@
    }
}

impl Feature {
    #[verifier::type_invariant]
    closed spec fn inv(self) -> bool {
        is_feature_name(self.0@)
    }

    /// Validates `value` as a feature name.
    pub fn try_from(value: &str) -> (r: Result<Feature, FeatureFromStrError>)
        ensures
            r is Ok <==> is_feature_name(value@),
            r is Ok ==> r->Ok_0@ == value@,
            r is Err ==> r->Err_0@ == value@,
    {
        if pattern_matches(FEATURE_PATTERN, value) {
            Ok(Feature(value.to_owned()))
        } else {
            Err(FeatureFromStrError::IllformedFeature(value.to_owned()))
        }
    }

    /// The feature `word`, the usual first column of a corpus.
    pub fn word() -> (r: Feature)
        ensures
            r@ == seq!['w', 'o', 'r', 'd'],
    {
        let s = String::from_str("word");
        proof {
            reveal_strlit("word");
        }
        Feature(s)
    }

    /// The feature `s`, which marks the first token of each sentence.
    pub fn sentence() -> (r: Feature)
        ensures
            r@ == seq!['s'],
    {
        let s = String::from_str("s");
        proof {
            reveal_strlit("s");
        }
        Feature(s)
    }

    /// The feature that holds this feature's values reversed: the name with `_rev` appended.
    pub fn reversed(&self) -> (r: Feature)
        ensures
            r@ == self@ + seq!['_', 'r', 'e', 'v'],
    {
        proof {
            use_type_invariant(self);
            reveal_strlit("_rev");
        }
        let mut s = self.0.clone();
        s.append("_rev");
        assert(is_feature_name(s@)) by {
            assert forall|i: int| 1 <= i < s@.len() implies is_name_char(#[trigger] s@[i]) by {
                if i < self.0@.len() {
                    assert(s@[i] == self.0@[i]);
                }
            }
        }
        Feature(s)
    }

    /// The name; it is always well formed.
    pub fn as_str(&self) -> (r: &str)
        ensures
            r@ == self@,
            is_feature_name(self@),
    {
        proof {
            use_type_invariant(self);
        }
        self.0.as_str()
    }
}

impl Clone for Feature {
    fn clone(&self) -> (r: Feature)
        ensures
            r@ == self@,
    {
        proof {
            use_type_invariant(self);
        }
        Feature(self.0.clone())
    }
}

/// The error of a name that is no feature name.
#[derive(Debug, Clone)]
pub enum FeatureFromStrError {
    IllformedFeature(String),
}

impl View for FeatureFromStrError {
    type V = Seq<char>;

    open spec fn view(&self) -> Seq<char> {
        match self {
            FeatureFromStrError::IllformedFeature(s) => s@,
        }
    }
}

/// The value of one feature on one token: any string.
#[derive(Debug, PartialEq, Eq, PartialOrd, Ord, Hash)]
pub struct FValue(String);

impl View for FValue {
    type V = Seq<char>;

    closed spec fn view(&self) -> Seq<char> {
        self.0@
    }
}

impl FValue {
    pub fn from(value: &str) -> (r: FValue)
        ensures
            r@ == value@,
    {
        FValue(value.to_owned())
    }

    /// The value built from a string that is given up to it.
    pub fn from_string(value: String) -> (r: FValue)
        ensures
            r@ == value@,
    {
        FValue(value)
    }

    /// The empty value, which pads short rows.
    pub fn empty() -> (r: FValue)
        ensures
            r@ == Seq::<char>::empty(),
    {
        FValue(String::new())
    }

    /// The value `s`, which marks the first token of a sentence.
    pub fn start() -> (r: FValue)
        ensures
            r@ == seq!['s'],
    {
        let s = String::from_str("s");
        proof {
            reveal_strlit("s");
        }
        FValue(s)
    }

    pub fn as_str(&self) -> (r: &str)
        ensures
            r@ == self@,
    {
        self.0.as_str()
    }
}

impl Clone for FValue {
    fn clone(&self) -> (r: FValue)
        ensures
            r@ == self@,
    {
        FValue(self.0.clone())
    }
}

} // verus!
