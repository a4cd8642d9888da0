use vstd::prelude::*;

use crate::corpus_reader::{features_view, CorpusReaderError, Sentence};
use crate::feature::{is_feature_name, Feature};
use crate::text::strings_view;

verus! {

/// Declares serde_json::Error, carried unread by the error of a schema that
/// cannot be written.
#[verifier::external_type_specification]
#[verifier::external_body]
pub struct ExJsonError(serde_json::Error);

/// A character that a JSON string holds as it is, without an escape.
pub open spec fn json_plain(c: char) -> bool {
    c != '"' && c != '\\' && c as u32 >= 0x20
}

/// A string in double quotes.
pub open spec fn json_quoted(s: Seq<char>) -> Seq<char> {
    seq!['"'] + s + seq!['"']
}

/// The quoted strings, separated by commas.
pub open spec fn json_items(items: Seq<Seq<char>>) -> Seq<char>
    decreases items.len(),
{
    if items.len() == 0 {
        Seq::empty()
    } else if items.len() == 1 {
        json_quoted(items[0])
    } else {
        json_items(items.drop_last()) + seq![','] + json_quoted(items.last())
    }
}

/// The compact JSON array of the given strings.
pub open spec fn json_string_list(items: Seq<Seq<char>>) -> Seq<char> {
    seq!['['] + json_items(items) + seq![']']
}

/// Relies on serde_json::to_string: a list of strings becomes a compact JSON
/// array of JSON strings, and a string whose characters need no escape is
/// written between quotes as it is. It writes into a `Vec<u8>`, which never
/// fails, and `Vec<String>` serializes without error.
#[verifier::external_body]
fn json_of_strings(items: &Vec<String>) -> (r: Result<String, serde_json::Error>)
    requires
        forall|i: int, j: int|
            0 <= i < items@.len() && 0 <= j < items@[i]@.len() ==> json_plain(
                #[trigger] items@[i]@[j],
            ),
    ensures
        r is Ok,
        r is Ok ==> r->Ok_0@ == json_string_list(strings_view(items@)),
{
    serde_json::to_string(items)
}

/// Where the schema of a built corpus is written, and how its directory is named.
pub struct Corpus {}

impl Corpus {
    /// The suffix of the directory of a corpus's derived files.
    pub const DIR_SUFFIX: &'static str = "corpus-rs";

    /// The name of the schema file in that directory.
    pub const FEATURES_FILE: &'static str = "features.cfg";

    pub const FEATURES_PREFIX: &'static str = "features:";

    pub const SENTENCES_PATH: &'static str = "sentences";

    /// The schema that the index builder reads: the header's feature names,
    /// in order, as a JSON array of strings.
    pub fn features_json(header: &[Feature]) -> (r: Result<String, serde_json::Error>)
        ensures
            r is Ok,
            r is Ok ==> r->Ok_0@ == json_string_list(features_view(header@)),
    {
        let mut names: Vec<String> = Vec::new();
        let mut i: usize = 0;
        while i < header.len()
            invariant
                i <= header@.len(),
                strings_view(names@) =~= features_view(header@).take(i as int),
                forall|k: int, j: int|
                    0 <= k < names@.len() && 0 <= j < names@[k]@.len() ==> json_plain(
                        #[trigger] names@[k]@[j],
                    ),
            decreases header@.len() - i,
        {
            let name = header[i].as_str();
            let owned = name.to_owned();
            assert(is_feature_name(owned@));
            assert forall|j: int| 0 <= j < owned@.len() implies json_plain(
                #[trigger] owned@[j],
            ) by {
                if j > 0 {
                    assert(crate::feature::is_name_char(owned@[j]));
                }
            }
            let ghost before = names@;
            names.push(owned);
            assert(strings_view(names@) =~= strings_view(before).push(owned@));
            assert(features_view(header@).take(i + 1) =~= features_view(header@).take(
                i as int,
            ).push(header@[i as int]@));
            assert(forall|k: int| 0 <= k < before.len() ==> names@[k] == before[k]);
            i = i + 1;
        }
        assert(features_view(header@).take(header@.len() as int) =~= features_view(header@));
        json_of_strings(&names)
    }
}

/// Counts of what a build has read.
pub struct CorpusStats {
    pub n_sentences: usize,
    pub n_tokens: usize,
}

impl CorpusStats {
    pub fn new() -> (r: Self)
        ensures
            r.n_sentences == 0,
            r.n_tokens == 0,
    {
        CorpusStats { n_sentences: 0, n_tokens: 0 }
    }

    /// Whether one more sentence of `len` tokens can be counted.
    pub open spec fn has_room(&self, len: nat) -> bool {
        self.n_sentences < usize::MAX && self.n_tokens + len <= usize::MAX
    }

    pub fn can_record(&self, sentence: &Sentence) -> (r: bool)
        ensures
            r == self.has_room(sentence@.len()),
    {
        self.n_sentences < usize::MAX && sentence.len() <= usize::MAX - self.n_tokens
    }

    /// Counts one sentence and its tokens.
    pub fn record(&mut self, sentence: &Sentence)
        requires
            old(self).has_room(sentence@.len()),
        ensures
            final(self).n_sentences == old(self).n_sentences + 1,
            final(self).n_tokens == old(self).n_tokens + sentence@.len(),
    {
        self.n_sentences = self.n_sentences + 1;
        self.n_tokens = self.n_tokens + sentence.len();
    }
}

/// Why a build failed.
#[allow(inconsistent_fields)]
#[derive(Debug)]
pub enum CorpusBuildError {
    Unknown(String),
    /// The corpus could not be read.
    FailedReadingCorpus(CorpusReaderError),
    /// The schema file could not be created.
    FailedToCreateFile { path: String, source: std::io::Error },
    /// The schema could not be written.
    FailedToWriteJson { path: String, source: serde_json::Error },
}

impl CorpusBuildError {
    pub fn failed_to_create_file(path: &str, source: std::io::Error) -> (r: Self)
        ensures
            (r matches CorpusBuildError::FailedToCreateFile { path: p, source: e } && p@ == path@
                && e == source),
    {
        CorpusBuildError::FailedToCreateFile { path: path.to_owned(), source }
    }

    pub fn failed_to_write_json(path: &str, source: serde_json::Error) -> (r: Self)
        ensures
            (r matches CorpusBuildError::FailedToWriteJson { path: p, source: e } && p@ == path@
                && e == source),
    {
        CorpusBuildError::FailedToWriteJson { path: path.to_owned(), source }
    }
}

} // verus!
