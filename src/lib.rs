//! Reading annotated corpora: a header of feature names, then one token per
//! line, grouped into sentences, with derived features for the index builder.
pub mod corpus;
pub mod corpus_reader;
pub mod feature;
pub mod options;
pub mod text;
