use korpsearch::corpus::{Corpus, CorpusBuildError, CorpusStats};
use korpsearch::corpus_reader::{
    augment_sentence, parse_row, CorpusReader, CorpusReaderOptions, CsvReader,
};
use korpsearch::feature::{FValue, Feature};
use korpsearch::options::Options;
use korpsearch::text::{reverse_chars, split_tabs_of, trim_of};

#[test]
fn feature_names_follow_the_pattern() {
    assert!(Feature::try_from("word").is_ok());
    assert!(Feature::try_from("_x9").is_ok());
    assert!(Feature::try_from("lemma_2").is_ok());
    assert!(Feature::try_from("").is_err());
    assert!(Feature::try_from("9a").is_err());
    assert!(Feature::try_from("Word").is_err());
    assert!(Feature::try_from("a-b").is_err());
    assert!(Feature::try_from("word\n").is_err());
    assert!(Feature::try_from("wörd").is_err());
    assert_eq!(Feature::try_from("pos").unwrap().as_str(), "pos");
}

#[test]
fn fixed_features_and_values() {
    assert_eq!(Feature::word().as_str(), "word");
    assert_eq!(Feature::sentence().as_str(), "s");
    assert_eq!(Feature::word().reversed().as_str(), "word_rev");
    assert_eq!(FValue::empty().as_str(), "");
    assert_eq!(FValue::start().as_str(), "s");
    assert_eq!(FValue::from("a b").as_str(), "a b");
    assert_eq!(FValue::from_string("x".to_string()).as_str(), "x");
}

#[test]
fn split_and_reverse() {
    assert_eq!(split_tabs_of("a\tb\t\tc"), vec!["a", "b", "", "c"]);
    assert_eq!(split_tabs_of(""), vec![""]);
    assert_eq!(split_tabs_of("\t"), vec!["", ""]);
    assert_eq!(reverse_chars("abc"), "cba");
    assert_eq!(reverse_chars(""), "");
}

#[test]
fn parse_row_pads_and_keeps_long_rows() {
    let t: Vec<String> = parse_row("a", 3).iter().map(|v| v.as_str().to_string()).collect();
    assert_eq!(t, vec!["a", "", ""]);
    let t: Vec<String> = parse_row("a\tb\tc", 2).iter().map(|v| v.as_str().to_string()).collect();
    assert_eq!(t, vec!["a", "b", "c"]);
}

#[test]
fn augment_sentence_marks_first_token() {
    let s = vec![parse_row("ab\tX", 2), parse_row("cd\tY", 2)];
    let a = augment_sentence(&s, CorpusReaderOptions::default());
    let got: Vec<Vec<String>> = a
        .iter()
        .map(|t| t.iter().map(|v| v.as_str().to_string()).collect())
        .collect();
    assert_eq!(got, vec![vec!["ab", "X", "ba", "s"], vec!["cd", "Y", "dc", ""]]);
}

#[test]
fn features_json_is_a_string_array() {
    let r = CsvReader::new("word\tpos", "test").unwrap();
    assert_eq!(Corpus::features_json(r.header()).unwrap(), "[\"word\",\"pos\"]");
    assert_eq!(Corpus::features_json(&[]).unwrap(), "[]");
}

#[test]
fn stats_count_sentences_and_tokens() {
    let mut st = CorpusStats::new();
    let s = vec![parse_row("a", 1), parse_row("b", 1)];
    assert!(st.can_record(&s));
    st.record(&s);
    st.record(&s);
    assert_eq!(st.n_sentences, 2);
    assert_eq!(st.n_tokens, 4);
}

#[test]
fn build_errors_keep_the_path() {
    let e = CorpusBuildError::failed_to_create_file(
        "out/features.cfg",
        std::io::Error::new(std::io::ErrorKind::Other, "no"),
    );
    match e {
        CorpusBuildError::FailedToCreateFile { path, .. } => assert_eq!(path, "out/features.cfg"),
        _ => panic!("wrong variant"),
    }
    let je = serde_json::from_str::<u8>("x").unwrap_err();
    match CorpusBuildError::failed_to_write_json("f.cfg", je) {
        CorpusBuildError::FailedToWriteJson { path, .. } => assert_eq!(path, "f.cfg"),
        _ => panic!("wrong variant"),
    }
    let e = korpsearch::corpus_reader::CorpusReaderError::cannot_open_file(
        "c.csv",
        std::io::Error::new(std::io::ErrorKind::NotFound, "gone"),
    );
    match e {
        korpsearch::corpus_reader::CorpusReaderError::CannotOpenFile { path, .. } => {
            assert_eq!(path, "c.csv")
        }
        _ => panic!("wrong variant"),
    }
}

#[test]
fn options_select_reader_options() {
    let o = Options {
        corpus: "c".to_string(),
        corpus_index: true,
        base_dir: "./corpora/".to_string(),
        no_sentence_feature: true,
        no_reversed_features: false,
    };
    let r = o.reader_options();
    assert!(r.no_sentence_feature);
    assert!(!r.no_reversed_features);
}

#[test]
fn corpus_file_names() {
    assert_eq!(Corpus::DIR_SUFFIX, "corpus-rs");
    assert_eq!(Corpus::FEATURES_FILE, "features.cfg");
}

#[test]
fn trim_takes_white_space_off_both_ends() {
    assert_eq!(trim_of("  a b\t\n"), "a b");
    assert_eq!(trim_of("\u{3000}x\u{a0}"), "x");
    assert_eq!(trim_of(" \t "), "");
    assert_eq!(trim_of(""), "");
    let t: Vec<String> = parse_row(" a\t\t", 2).iter().map(|v| v.as_str().to_string()).collect();
    assert_eq!(t, vec!["a", ""]);
}
