use vstd::prelude::*;

use crate::corpus_reader::CorpusReaderOptions;

verus! {

/// What a run of the index builder is asked to do.
pub struct Options {
    /// The name of the corpus, without file suffixes.
    pub corpus: String,
    /// Whether to build the corpus's derived files.
    pub corpus_index: bool,
    /// The directory that holds the corpus.
    pub base_dir: String,
    /// Leave out the sentence feature `s`.
    pub no_sentence_feature: bool,
    /// Leave out the reversed features.
    pub no_reversed_features: bool,
}

impl Options {
    /// The reader options that these options select.
    pub fn reader_options(&self) -> (r: CorpusReaderOptions)
        ensures
            r.no_reversed_features == self.no_reversed_features,
            r.no_sentence_feature == self.no_sentence_feature,
    {
        CorpusReaderOptions {
            no_reversed_features: self.no_reversed_features,
            no_sentence_feature: self.no_sentence_feature,
        }
    }
}

} // verus!
