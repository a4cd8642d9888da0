use korpsearch::corpus_reader::{
    corpus_reader, supported_file_type, uncompressed_suffix, AugumentedReader,
    CompressedFileReader, CorpusReader, CorpusReaderError, CorpusReaderOptions, CsvReader,
    Sentence,
};

fn plain() -> CorpusReaderOptions {
    CorpusReaderOptions {
        no_reversed_features: true,
        no_sentence_feature: true,
    }
}

fn texts(s: &Sentence) -> Vec<Vec<String>> {
    s.iter()
        .map(|t| t.iter().map(|v| v.as_str().to_string()).collect())
        .collect()
}

fn names<R: CorpusReader>(r: &R) -> Vec<String> {
    r.header().iter().map(|f| f.as_str().to_string()).collect()
}

fn read_all(r: &mut AugumentedReader, lines: &[&str]) -> Vec<Vec<Vec<String>>> {
    let mut out = Vec::new();
    for line in lines {
        if let Some(s) = r.feed_line(line).unwrap() {
            out.push(texts(&s));
        }
    }
    if let Some(s) = r.finish() {
        out.push(texts(&s));
    }
    out
}

fn row(vals: &[&str]) -> Vec<String> {
    vals.iter().map(|v| v.to_string()).collect()
}

#[test]
fn two_sentences_without_augmentation() {
    let mut r = corpus_reader("corpus.csv", "word\tpos", "test", plain()).unwrap();
    assert_eq!(names(&r), vec!["word", "pos"]);
    let got = read_all(&mut r, &["# ", "dog\tNN", "barks\tVB", "# ", "cat\tNN"]);
    assert_eq!(
        got,
        vec![
            vec![row(&["dog", "NN"]), row(&["barks", "VB"])],
            vec![row(&["cat", "NN"])],
        ]
    );
}

#[test]
fn too_many_columns_names_the_line() {
    let mut r = corpus_reader("corpus.csv", "word\tpos", "test", plain()).unwrap();
    assert!(r.feed_line("# ").unwrap().is_none());
    match r.feed_line("dog\tNN\textra") {
        Err(CorpusReaderError::TooManyColumns { line_nr, n_feats, row }) => {
            assert_eq!(line_nr, 3);
            assert_eq!(n_feats, 2);
            let vals: Vec<&str> = row.iter().map(|v| v.as_str()).collect();
            assert_eq!(vals, vec!["dog", "NN", "extra"]);
        }
        other => panic!("unexpected result: {:?}", other),
    }
}

#[test]
fn compressed_suffix_is_stripped() {
    assert_eq!(uncompressed_suffix("corpus.csv.bz2"), "csv");
    assert_eq!(uncompressed_suffix("dir/corpus.csv.gz"), "csv");
    assert_eq!(uncompressed_suffix("corpus.csv.xz"), "csv");
    assert_eq!(uncompressed_suffix("corpus.csv"), "csv");
    assert_eq!(uncompressed_suffix("corpus.txt"), "txt");
    assert_eq!(uncompressed_suffix("corpus"), "");
    assert_eq!(uncompressed_suffix("corpus.bz2"), "");
    assert_eq!(uncompressed_suffix(".csv"), "");
    assert_eq!(uncompressed_suffix("a.b/corpus"), "");
    assert_eq!(uncompressed_suffix("corpus.csv/"), "csv");
    assert_eq!(uncompressed_suffix("dir/corpus.csv.bz2//"), "csv");
    assert_eq!(uncompressed_suffix("corpus.csv/."), "csv");
    assert_eq!(uncompressed_suffix("corpus.csv/./"), "csv");
    assert_eq!(uncompressed_suffix("."), "");
    assert_eq!(uncompressed_suffix("/"), "");
    assert!(supported_file_type("corpus.csv.bz2").is_ok());
}

#[test]
fn compression_containers_are_known() {
    let _ = CompressedFileReader::new("corpus.csv.bz2");
    assert!(CompressedFileReader::is_supported_type("gz"));
    assert!(CompressedFileReader::is_supported_type("bz2"));
    assert!(CompressedFileReader::is_supported_type("xz"));
    assert!(!CompressedFileReader::is_supported_type("csv"));
    assert!(!CompressedFileReader::is_supported_type(""));
}

#[test]
fn unsupported_file_type_names_the_suffix() {
    match corpus_reader("corpus.txt.gz", "word", "test", plain()) {
        Err(CorpusReaderError::UnsupportedFileType(s)) => assert_eq!(s, "txt"),
        other => panic!("unexpected result: {:?}", other.err()),
    }
    match corpus_reader("corpus", "word", "test", plain()) {
        Err(CorpusReaderError::UnsupportedFileType(s)) => assert_eq!(s, ""),
        other => panic!("unexpected result: {:?}", other.err()),
    }
}

#[test]
fn illformed_header_feature_is_rejected() {
    match CsvReader::new("word\tPos\t1x", "test") {
        Err(CorpusReaderError::IllformedFeature(e)) => {
            let korpsearch::feature::FeatureFromStrError::IllformedFeature(name) = e;
            assert_eq!(name, "Pos");
        }
        other => panic!("unexpected result: {:?}", other.err()),
    }
    assert!(CsvReader::new("", "test").is_err());
    assert!(CsvReader::new("\t", "test").is_err());
    assert!(CsvReader::new("word\t\tpos", "test").is_err());
}

#[test]
fn header_round_trip() {
    let r = CsvReader::new("word\tpos\tlemma_2", "test").unwrap();
    assert_eq!(names(&r), vec!["word", "pos", "lemma_2"]);
    assert_eq!(r.line_number(), 1);
    assert_eq!(r.description(), "test");
}

#[test]
fn short_rows_are_padded() {
    let mut r = corpus_reader("c.csv", "word\tpos\tlemma", "test", plain()).unwrap();
    let got = read_all(&mut r, &["dog", "cat\tNN"]);
    assert_eq!(
        got,
        vec![vec![row(&["dog", "", ""]), row(&["cat", "NN", ""])]]
    );
}

#[test]
fn leading_and_repeated_markers_give_no_sentence() {
    let mut r = corpus_reader("c.csv", "word", "test", plain()).unwrap();
    let got = read_all(&mut r, &["# ", "# a", "", "x", "", "# ", "# ", "y", "# "]);
    assert_eq!(got, vec![vec![row(&["x"])], vec![row(&["y"])]]);
}

#[test]
fn empty_input_gives_no_sentence() {
    let mut r = corpus_reader("c.csv", "word", "test", plain()).unwrap();
    assert!(read_all(&mut r, &[]).is_empty());
    let mut r = corpus_reader("c.csv", "word", "test", plain()).unwrap();
    assert!(read_all(&mut r, &["", "# "]).is_empty());
}

#[test]
fn hash_without_space_is_a_token() {
    let mut r = corpus_reader("c.csv", "word", "test", plain()).unwrap();
    let got = read_all(&mut r, &["#", "#x"]);
    assert_eq!(got, vec![vec![row(&["#"]), row(&["#x"])]]);
}

#[test]
fn both_augmentations_extend_header_and_tokens() {
    let mut r = corpus_reader("c.csv", "word\tpos", "test", CorpusReaderOptions::default()).unwrap();
    assert_eq!(names(&r), vec!["word", "pos", "word_rev", "s"]);
    let got = read_all(&mut r, &["dog\tNN", "barks\tVB", "# ", "cat"]);
    assert_eq!(
        got,
        vec![
            vec![row(&["dog", "NN", "god", "s"]), row(&["barks", "VB", "skrab", ""])],
            vec![row(&["cat", "", "tac", "s"])],
        ]
    );
}

#[test]
fn only_sentence_feature() {
    let o = CorpusReaderOptions {
        no_reversed_features: true,
        no_sentence_feature: false,
    };
    let mut r = corpus_reader("c.csv", "pos", "test", o).unwrap();
    assert_eq!(names(&r), vec!["pos", "s"]);
    let got = read_all(&mut r, &["NN", "VB"]);
    assert_eq!(got, vec![vec![row(&["NN", "s"]), row(&["VB", ""])]]);
}

#[test]
fn only_reversed_feature() {
    let o = CorpusReaderOptions {
        no_reversed_features: false,
        no_sentence_feature: true,
    };
    let mut r = corpus_reader("c.csv", "word", "test", o).unwrap();
    assert_eq!(names(&r), vec!["word", "word_rev"]);
    let got = read_all(&mut r, &["häst"]);
    assert_eq!(got, vec![vec![row(&["häst", "tsäh"])]]);
}

#[test]
fn augmented_reader_wraps_a_csv_reader() {
    let inner = CsvReader::new("word", "test").unwrap();
    let mut r = AugumentedReader::new(inner, CorpusReaderOptions::default());
    assert_eq!(names(&r), vec!["word", "word_rev", "s"]);
    assert!(r.feed_line("ab").unwrap().is_none());
    assert_eq!(r.line_number(), 2);
    let s = r.feed_line("# ").unwrap().unwrap();
    assert_eq!(texts(&s), vec![row(&["ab", "ba", "s"])]);
    assert!(r.finish().is_none());
}

fn owned(lines: &[&str]) -> Vec<String> {
    lines.iter().map(|l| l.to_string()).collect()
}

#[test]
fn sentences_reads_a_whole_input() {
    let mut r = corpus_reader("corpus.csv", "word\tpos", "test", plain()).unwrap();
    let got = r
        .sentences(&owned(&["# ", "dog\tNN", "barks\tVB", "# ", "cat\tNN"]))
        .unwrap();
    let got: Vec<Vec<Vec<String>>> = got.iter().map(texts).collect();
    assert_eq!(
        got,
        vec![
            vec![row(&["dog", "NN"]), row(&["barks", "VB"])],
            vec![row(&["cat", "NN"])],
        ]
    );
}

#[test]
fn sentences_stops_at_an_overlong_row() {
    let mut r = corpus_reader("corpus.csv", "word\tpos", "test", plain()).unwrap();
    match r.sentences(&owned(&["a\tb", "# ", "dog\tNN\textra", "c"])) {
        Err(CorpusReaderError::TooManyColumns { line_nr, .. }) => assert_eq!(line_nr, 4),
        other => panic!("unexpected result: {:?}", other),
    }
}

#[test]
fn sentences_with_augmentation() {
    let mut r = corpus_reader("c.csv.gz", "word", "test", CorpusReaderOptions::default()).unwrap();
    let got = r.sentences(&owned(&["ab", "", "cd", "# ", "# ", "e"])).unwrap();
    let got: Vec<Vec<Vec<String>>> = got.iter().map(texts).collect();
    assert_eq!(
        got,
        vec![
            vec![row(&["ab", "ba", "s"]), row(&["cd", "dc", ""])],
            vec![row(&["e", "e", "s"])],
        ]
    );
}

#[test]
fn repeated_header_name_is_rejected() {
    match CsvReader::new("a\ta", "test") {
        Err(CorpusReaderError::DuplicateFeature(name)) => assert_eq!(name, "a"),
        other => panic!("unexpected result: {:?}", other.err()),
    }
    match CsvReader::new("a\tb\tA\tb", "test") {
        Err(CorpusReaderError::IllformedFeature(_)) => {}
        other => panic!("unexpected result: {:?}", other.err()),
    }
    match CsvReader::new("a\tb\tb\tA", "test") {
        Err(CorpusReaderError::IllformedFeature(e)) => {
            let korpsearch::feature::FeatureFromStrError::IllformedFeature(name) = e;
            assert_eq!(name, "A");
        }
        other => panic!("unexpected result: {:?}", other.err()),
    }
    match CsvReader::new("a\ta\tB", "test") {
        Err(CorpusReaderError::IllformedFeature(e)) => {
            let korpsearch::feature::FeatureFromStrError::IllformedFeature(name) = e;
            assert_eq!(name, "B");
        }
        other => panic!("unexpected result: {:?}", other.err()),
    }
    match corpus_reader("c.csv", "a\ta\tB", "test", plain()) {
        Err(CorpusReaderError::IllformedFeature(_)) => {}
        other => panic!("unexpected result: {:?}", other.err()),
    }
}

#[test]
fn derived_name_clash_is_rejected() {
    match corpus_reader("c.csv", "word\tword_rev", "test", CorpusReaderOptions::default()) {
        Err(CorpusReaderError::DuplicateFeature(name)) => assert_eq!(name, "word_rev"),
        other => panic!("unexpected result: {:?}", other.err()),
    }
    match corpus_reader("c.csv", "word\ts", "test", CorpusReaderOptions::default()) {
        Err(CorpusReaderError::DuplicateFeature(name)) => assert_eq!(name, "s"),
        other => panic!("unexpected result: {:?}", other.err()),
    }
    assert!(corpus_reader("c.csv", "word\ts", "test", plain()).is_ok());
    let inner = CsvReader::new("word\tword_rev", "test").unwrap();
    let o = CorpusReaderOptions {
        no_reversed_features: true,
        no_sentence_feature: false,
    };
    let r = AugumentedReader::new(inner, o);
    assert_eq!(names(&r), vec!["word", "word_rev", "s"]);
}

#[test]
fn header_is_trimmed() {
    let r = CsvReader::new(" word\tpos\t \r", "test").unwrap();
    assert_eq!(names(&r), vec!["word", "pos"]);
    let r = CsvReader::new("word\t", "test").unwrap();
    assert_eq!(names(&r), vec!["word"]);
}

#[test]
fn rows_are_trimmed_before_splitting() {
    let mut r = corpus_reader("c.csv", "word\tpos", "test", plain()).unwrap();
    let got = read_all(&mut r, &["a\t\t", "b ", "  \t ", " c\tNN "]);
    assert_eq!(
        got,
        vec![vec![row(&["a", ""]), row(&["b", ""]), row(&["c", "NN"])]]
    );
}

#[test]
fn whitespace_only_line_is_blank() {
    let mut r = corpus_reader("c.csv", "word", "test", plain()).unwrap();
    let got = read_all(&mut r, &["x", "   ", "\t", "# ", "   "]);
    assert_eq!(got, vec![vec![row(&["x"])]]);
}
