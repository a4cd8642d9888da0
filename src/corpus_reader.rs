use vstd::prelude::*;

use crate::feature::{is_feature_name, FValue, Feature, FeatureFromStrError};
use crate::text::{
    chars_of, reverse_chars, split_tabs, split_tabs_of, strings_view, trim, trim_of,
};

verus! {

/// Declares std::io::Error, carried unread by the error of a file that
/// cannot be opened.
#[verifier::external_type_specification]
#[verifier::external_body]
pub struct ExIoError(std::io::Error);

/// The values of one token, one per feature of the header.
pub type Token = Vec<FValue>;

/// The tokens of one sentence, in order.
pub type Sentence = Vec<Token>;

pub open spec fn token_view(t: Seq<FValue>) -> Seq<Seq<char>> {
    t.map_values(|v: FValue| v@)
}

pub open spec fn sentence_view(s: Seq<Token>) -> Seq<Seq<Seq<char>>> {
    s.map_values(|t: Token| token_view(t@))
}

pub open spec fn features_view(h: Seq<Feature>) -> Seq<Seq<char>> {
    h.map_values(|f: Feature| f@)
}

// ---------------------------------------------------------------------------
// Format selection
// ---------------------------------------------------------------------------
/// The index of the last `c` in `s`, or -1 where there is none.
pub open spec fn last_index(s: Seq<char>, c: char) -> int
    decreases s.len(),
{
    if s.len() == 0 {
        -1
    } else if s.last() == c {
        s.len() - 1
    } else {
        last_index(s.drop_last(), c)
    }
}

pub proof fn lemma_last_index_bounds(s: Seq<char>, c: char)
    ensures
        -1 <= last_index(s, c) < s.len(),
        last_index(s, c) >= 0 ==> s[last_index(s, c)] == c,
    decreases s.len(),
{
    if s.len() > 0 && s.last() != c {
        lemma_last_index_bounds(s.drop_last(), c);
    }
}

/// Whether a path ends in a separator, or in a `.` component after one:
/// neither names the file.
pub open spec fn ends_in_separator(p: Seq<char>) -> bool {
    ||| p.len() > 0 && p.last() == '/'
    ||| p.len() >= 2 && p.last() == '.' && p[p.len() - 2] == '/'
}

/// A path without its trailing separators and `.` components.
pub open spec fn trim_path_end(p: Seq<char>) -> Seq<char>
    decreases p.len(),
{
    if ends_in_separator(p) {
        trim_path_end(p.drop_last())
    } else {
        p
    }
}

/// The last component of a path: what follows its last `/`, once trailing
/// separators and `.` components are taken off.
pub open spec fn file_name(p: Seq<char>) -> Seq<char> {
    let t = trim_path_end(p);
    t.subrange(last_index(t, '/') + 1, t.len() as int)
}

/// The length of a path without its trailing separators and `.` components.
fn trimmed_len(cs: &Vec<char>) -> (r: usize)
    ensures
        r <= cs@.len(),
        cs@.take(r as int) == trim_path_end(cs@),
{
    let mut k: usize = cs.len();
    assert(cs@.take(k as int) =~= cs@);
    while k > 0 && (cs[k - 1] == '/' || (k >= 2 && cs[k - 1] == '.' && cs[k - 2] == '/'))
        invariant
            k <= cs@.len(),
            trim_path_end(cs@) == trim_path_end(cs@.take(k as int)),
        decreases k,
    {
        assert(cs@.take(k as int).drop_last() =~= cs@.take(k - 1));
        assert(ends_in_separator(cs@.take(k as int)));
        k = k - 1;
    }
    assert(!ends_in_separator(cs@.take(k as int)));
    k
}

/// The extension of a file name: what follows its last `.`, unless that dot
/// is its first character or it has none.
pub open spec fn extension(name: Seq<char>) -> Option<Seq<char>> {
    let d = last_index(name, '.');
    if d <= 0 {
        None
    } else {
        Some(name.subrange(d + 1, name.len() as int))
    }
}

/// A file name without its extension.
pub open spec fn file_stem(name: Seq<char>) -> Seq<char> {
    name.subrange(0, last_index(name, '.'))
}

/// The extensions of the compression containers that are unwrapped.
pub open spec fn is_compression_suffix(e: Seq<char>) -> bool {
    ||| e == seq!['g', 'z']
    ||| e == seq!['b', 'z', '2']
    ||| e == seq!['x', 'z']
}

/// The logical format's suffix of a path: its extension, or, where that names
/// a compression container, the extension inside it; empty where there is none.
pub open spec fn logical_suffix(p: Seq<char>) -> Seq<char> {
    let name = file_name(p);
    match extension(name) {
        None => Seq::empty(),
        Some(e) => if is_compression_suffix(e) {
            match extension(file_stem(name)) {
                None => Seq::empty(),
                Some(inner) => inner,
            }
        } else {
            e
        },
    }
}

fn find_last(cs: &Vec<char>, c: char) -> (r: Option<usize>)
    ensures
        r is None <==> last_index(cs@, c) == -1,
        r is Some ==> r->Some_0 as int == last_index(cs@, c),
{
    let mut k: usize = cs.len();
    assert(cs@.take(k as int) =~= cs@);
    while k > 0
        invariant
            k <= cs@.len(),
            last_index(cs@, c) == last_index(cs@.take(k as int), c),
        decreases k,
    {
        assert(cs@.take(k as int).drop_last() =~= cs@.take(k - 1));
        if cs[k - 1] == c {
            return Some(k - 1);
        }
        k = k - 1;
    }
    assert(cs@.take(0) =~= Seq::<char>::empty());
    None
}

fn copy_range(cs: &Vec<char>, lo: usize, hi: usize) -> (r: Vec<char>)
    requires
        lo <= hi <= cs@.len(),
    ensures
        r@ == cs@.subrange(lo as int, hi as int),
{
    let mut out: Vec<char> = Vec::new();
    let mut i: usize = lo;
    while i < hi
        invariant
            lo <= i <= hi,
            hi <= cs@.len(),
            out@ =~= cs@.subrange(lo as int, i as int),
        decreases hi - i,
    {
        out.push(cs[i]);
        i = i + 1;
    }
    out
}

fn extension_of(name: &Vec<char>) -> (r: Option<Vec<char>>)
    ensures
        r is None <==> extension(name@) is None,
        r is Some ==> r->Some_0@ == extension(name@)->Some_0,
{
    proof {
        lemma_last_index_bounds(name@, '.');
    }
    let found = find_last(name, '.');
    match found {
        Some(d) => {
            assert(d as int == last_index(name@, '.'));
            assert(d < name.len());
            if d > 0 {
                Some(copy_range(name, d + 1, name.len()))
            } else {
                None
            }
        },
        None => None,
    }
}

/// A stand-in for the compression layer that is to be unwrapped before a
/// file is read; it knows which containers it handles.
pub struct CompressedFileReader {}

impl CompressedFileReader {
    pub fn new(_path: &str) -> (r: Self) {
        CompressedFileReader {  }
    }

    /// Whether `ext` names a supported compression container: `gz`, `bz2` or `xz`.
    pub fn is_supported_type(ext: &str) -> (r: bool)
        ensures
            r == is_compression_suffix(ext@),
    {
        let cs = chars_of(ext);
        Self::is_supported_chars(&cs)
    }

    fn is_supported_chars(cs: &Vec<char>) -> (r: bool)
        ensures
            r == is_compression_suffix(cs@),
    {
        let n = cs.len();
        if n == 2 && cs[0] == 'g' && cs[1] == 'z' {
            assert(cs@ =~= seq!['g', 'z']);
            true
        } else if n == 3 && cs[0] == 'b' && cs[1] == 'z' && cs[2] == '2' {
            assert(cs@ =~= seq!['b', 'z', '2']);
            true
        } else if n == 2 && cs[0] == 'x' && cs[1] == 'z' {
            assert(cs@ =~= seq!['x', 'z']);
            true
        } else {
            false
        }
    }
}

/// The suffix that decides a file's format, after a compression suffix is taken off.
pub fn uncompressed_suffix(path: &str) -> (r: String)
    ensures
        r@ == logical_suffix(path@),
{
    let full = chars_of(path);
    let end = trimmed_len(&full);
    let cs = copy_range(&full, 0, end);
    proof {
        lemma_last_index_bounds(cs@, '/');
    }
    let slash = find_last(&cs, '/');
    let start: usize = match slash {
        Some(i) => {
            assert(i < cs.len());
            i + 1
        },
        None => 0,
    };
    let name = copy_range(&cs, start, cs.len());
    assert(full@ == path@);
    proof {
        lemma_last_index_bounds(name@, '.');
    }
    match extension_of(&name) {
        None => String::new(),
        Some(e) => {
            let d = find_last(&name, '.').unwrap();
            assert(e@ =~= path@.subrange(start + d + 1, end as int));
            if CompressedFileReader::is_supported_chars(&e) {
                let stem = copy_range(&name, 0, d);
                proof {
                    lemma_last_index_bounds(stem@, '.');
                }
                match extension_of(&stem) {
                    None => String::new(),
                    Some(inner) => {
                        let d2 = find_last(&stem, '.').unwrap();
                        assert(inner@ =~= path@.subrange(start + d2 + 1, start + d));
                        path.substring_char(start + d2 + 1, start + d).to_owned()
                    },
                }
            } else {
                path.substring_char(start + d + 1, end).to_owned()
            }
        },
    }
}

// ---------------------------------------------------------------------------
// Options and errors
// ---------------------------------------------------------------------------
/// Which derived features the reader leaves out; by default it adds both.
#[derive(Debug, Clone, Copy)]
pub struct CorpusReaderOptions {
    pub no_reversed_features: bool,
    pub no_sentence_feature: bool,
}

impl Default for CorpusReaderOptions {
    fn default() -> (r: Self)
        ensures
            !r.no_reversed_features,
            !r.no_sentence_feature,
    {
        CorpusReaderOptions { no_reversed_features: false, no_sentence_feature: false }
    }
}

/// Why a corpus cannot be read.
#[derive(Debug)]
pub enum CorpusReaderError {
    /// No reader handles files with this suffix.
    UnsupportedFileType(String),
    /// The corpus file could not be opened.
    CannotOpenFile { path: String, source: std::io::Error },
    /// A field of the header is no feature name.
    IllformedFeature(FeatureFromStrError),
    /// A feature name stands twice in the header, or a derived feature
    /// would repeat a name of the header.
    DuplicateFeature(String),
    /// A data row has more fields than the header has features.
    TooManyColumns { line_nr: usize, n_feats: usize, row: Token },
}

impl CorpusReaderError {
    pub fn cannot_open_file(path: &str, source: std::io::Error) -> (r: Self)
        ensures
            (r matches CorpusReaderError::CannotOpenFile { path: p, source: e } && p@ == path@
                && e == source),
    {
        CorpusReaderError::CannotOpenFile { path: path.to_owned(), source }
    }
}

// ---------------------------------------------------------------------------
// Rows and lines
// ---------------------------------------------------------------------------
/// A line that closes the sentence in progress: it starts with `# `.
pub open spec fn is_boundary(line: Seq<char>) -> bool {
    line.len() >= 2 && line[0] == '#' && line[1] == ' '
}

/// A line that carries nothing: it is empty, or white space only.
pub open spec fn is_blank(line: Seq<char>) -> bool {
    trim(line).len() == 0
}

/// The fields of a line: its tab-separated parts, once white space is taken
/// off its ends.
pub open spec fn line_fields(line: Seq<char>) -> Seq<Seq<char>> {
    split_tabs(trim(line))
}

/// A line that carries one token.
pub open spec fn is_data(line: Seq<char>) -> bool {
    !is_boundary(line) && !is_blank(line)
}

/// The fields of a row, with empty values added at the end up to `n` of them.
pub open spec fn padded(fields: Seq<Seq<char>>, n: nat) -> Seq<Seq<char>> {
    if fields.len() >= n {
        fields
    } else {
        fields + Seq::new((n - fields.len()) as nat, |i: int| Seq::<char>::empty())
    }
}

/// The token that a data line gives against a header of `n` features.
pub open spec fn row_token(line: Seq<char>, n: nat) -> Seq<Seq<char>> {
    padded(line_fields(line), n)
}

/// Whether a line keeps the row arity: only a data line with more than `n`
/// fields does not.
pub open spec fn row_fits(line: Seq<char>, n: nat) -> bool {
    is_data(line) ==> line_fields(line).len() <= n
}

/// The sentence in progress after one more line.
pub open spec fn next_pending(pending: Seq<Seq<Seq<char>>>, line: Seq<char>, n: nat) -> Seq<
    Seq<Seq<char>>,
> {
    if is_boundary(line) {
        Seq::empty()
    } else if is_blank(line) {
        pending
    } else {
        pending.push(row_token(line, n))
    }
}

/// The sentence that one more line completes, if any.
pub open spec fn completed(pending: Seq<Seq<Seq<char>>>, line: Seq<char>) -> Option<
    Seq<Seq<Seq<char>>>,
> {
    if is_boundary(line) && pending.len() > 0 {
        Some(pending)
    } else {
        None
    }
}

/// Takes the white space off a data line's ends, splits it on tabs and pads
/// it with empty values up to `n_feats`.
pub fn parse_row(line: &str, n_feats: usize) -> (r: Token)
    ensures
        token_view(r@) == row_token(line@, n_feats as nat),
{
    let trimmed = trim_of(line);
    let fields = split_tabs_of(trimmed.as_str());
    let mut token: Token = Vec::new();
    let mut i: usize = 0;
    while i < fields.len()
        invariant
            i <= fields@.len(),
            token_view(token@) =~= strings_view(fields@).take(i as int),
        decreases fields@.len() - i,
    {
        let ghost before = token@;
        let v = FValue::from(fields[i].as_str());
        token.push(v);
        assert(token_view(token@) =~= token_view(before).push(v@));
        assert(strings_view(fields@).take(i + 1) =~= strings_view(fields@).take(i as int).push(
            fields@[i as int]@,
        ));
        i = i + 1;
    }
    assert(strings_view(fields@).take(fields@.len() as int) =~= line_fields(line@));
    let ghost k = token@.len();
    while token.len() < n_feats
        invariant
            k == line_fields(line@).len(),
            k <= token@.len(),
            k < n_feats ==> token@.len() <= n_feats,
            k >= n_feats ==> token@.len() == k,
            token_view(token@) =~= line_fields(line@) + Seq::new(
                (token@.len() - k) as nat,
                |j: int| Seq::<char>::empty(),
            ),
        decreases n_feats - token@.len(),
    {
        let ghost before = token@;
        let v = FValue::empty();
        token.push(v);
        assert(token_view(token@) =~= token_view(before).push(v@));
    }
    assert(token_view(token@) =~= row_token(line@, n_feats as nat));
    token
}

// ---------------------------------------------------------------------------
// The tab-separated reader
/// No name stands twice.
pub open spec fn distinct_names(h: Seq<Seq<char>>) -> bool {
    forall|a: int, b: int| 0 <= a < b < h.len() ==> h[a] != h[b]
}

/// A header line whose fields are all feature names, none repeated.
pub open spec fn header_accepted(fields: Seq<Seq<char>>) -> bool {
    &&& forall|i: int| 0 <= i < fields.len() ==> is_feature_name(#[trigger] fields[i])
    &&& distinct_names(fields)
}

/// `fields[i]` is the first field that is no feature name.
pub open spec fn first_illformed(fields: Seq<Seq<char>>, i: int) -> bool {
    &&& 0 <= i < fields.len()
    &&& !is_feature_name(fields[i])
    &&& forall|j: int| 0 <= j < i ==> is_feature_name(#[trigger] fields[j])
}

/// `fields[i]` is the first field that repeats an earlier one.
pub open spec fn first_repeat(fields: Seq<Seq<char>>, i: int) -> bool {
    &&& 0 <= i < fields.len()
    &&& distinct_names(fields.take(i))
    &&& fields.take(i).contains(fields[i])
}

/// The error for a refused header: the first field that is no feature name,
/// or, where every field is one, the first repeated name.
pub open spec fn header_error(fields: Seq<Seq<char>>, e: CorpusReaderError) -> bool {
    if exists|i: int| #[trigger] first_illformed(fields, i) {
        exists|i: int|
            #[trigger] first_illformed(fields, i) && (e matches CorpusReaderError::IllformedFeature(
                f,
            ) && f@ == fields[i])
    } else {
        exists|i: int|
            #[trigger] first_repeat(fields, i) && (e matches CorpusReaderError::DuplicateFeature(s)
                && s@ == fields[i])
    }
}

/// Adding a name that is not there keeps names distinct.
pub proof fn lemma_push_distinct(h: Seq<Seq<char>>, x: Seq<char>)
    requires
        distinct_names(h),
        !h.contains(x),
    ensures
        distinct_names(h.push(x)),
{
    assert forall|a: int, b: int| 0 <= a < b < h.push(x).len() implies h.push(x)[a] != h.push(
        x,
    )[b] by {
        if b == h.len() {
            assert(h[a] == h.push(x)[a]);
        }
    }
}

/// Whether two strings hold the same characters.
fn same_text(a: &str, b: &str) -> (r: bool)
    ensures
        r == (a@ == b@),
{
    let x = a.to_owned();
    let y = b.to_owned();
    x == y
}

/// Whether `fields[i]` already stands among the fields before it.
fn repeats_earlier(fields: &Vec<String>, i: usize) -> (r: bool)
    requires
        i < fields@.len(),
    ensures
        r == strings_view(fields@).take(i as int).contains(fields@[i as int]@),
{
    let ghost sv = strings_view(fields@);
    let mut j: usize = 0;
    while j < i
        invariant
            j <= i < fields@.len(),
            sv == strings_view(fields@),
            forall|k: int| 0 <= k < j ==> sv[k] != sv[i as int],
        decreases i - j,
    {
        if same_text(fields[j].as_str(), fields[i].as_str()) {
            assert(sv.take(i as int)[j as int] == sv[i as int]);
            return true;
        }
        j = j + 1;
    }
    assert forall|k: int| 0 <= k < i implies sv.take(i as int)[k] != sv[i as int] by {
        assert(sv.take(i as int)[k] == sv[k]);
    }
    false
}

// ---------------------------------------------------------------------------
/// Reads a tab-separated corpus: a header line of feature names, then one
/// token per line, with `# ` lines between sentences. The lines come one at
/// a time; the reader keeps the sentence in progress.
pub struct CsvReader {
    description: &'static str,
    header: Vec<Feature>,
    sentence: Sentence,
    line_nr: usize,
}

impl CsvReader {
    /// The header's feature names.
    pub closed spec fn header_view(&self) -> Seq<Seq<char>> {
        features_view(self.header@)
    }

    /// The tokens of the sentence in progress.
    pub closed spec fn pending(&self) -> Seq<Seq<Seq<char>>> {
        sentence_view(self.sentence@)
    }

    /// The number of lines read, the header included.
    pub closed spec fn lines_read(&self) -> nat {
        self.line_nr as nat
    }

    /// What the reader was made for, as its owner named it.
    pub closed spec fn label(&self) -> &'static str {
        self.description
    }

    pub closed spec fn wf(&self) -> bool {
        &&& self.header@.len() >= 1
        &&& distinct_names(self.header_view())
        &&& forall|i: int| 0 <= i < self.sentence@.len() ==> #[trigger] self.sentence@[i]@.len() == self.header@.len()
    }

    /// Reads the header line: its tab-separated fields, once white space is
    /// taken off its ends, each a feature name, none repeated. The first field
    /// that is no name is the error; where all are names, the first that
    /// repeats an earlier one is.
    pub fn new(header_line: &str, description: &'static str) -> (r: Result<Self, CorpusReaderError>)
        ensures
            r is Ok <==> header_accepted(line_fields(header_line@)),
            r is Ok ==> {
                let c = r->Ok_0;
                &&& c.wf()
                &&& c.header_view() == line_fields(header_line@)
                &&& c.pending().len() == 0
                &&& c.lines_read() == 1
                &&& c.label() == description
            },
            r is Err ==> header_error(line_fields(header_line@), r->Err_0),
    {
        let trimmed = trim_of(header_line);
        let fields = split_tabs_of(trimmed.as_str());
        proof {
            crate::text::lemma_split_tabs_nonempty(trim(header_line@));
        }
        let ghost fv = line_fields(header_line@);
        let mut header: Vec<Feature> = Vec::new();
        let mut i: usize = 0;
        while i < fields.len()
            invariant
                i <= fields@.len(),
                fv == line_fields(header_line@),
                strings_view(fields@) == fv,
                features_view(header@) =~= fv.take(i as int),
                forall|j: int| 0 <= j < i ==> is_feature_name(#[trigger] fv[j]),
            decreases fields@.len() - i,
        {
            assert(fields@[i as int]@ == fv[i as int]);
            match Feature::try_from(fields[i].as_str()) {
                Ok(f) => {
                    let ghost before = header@;
                    header.push(f);
                    assert(features_view(header@) =~= features_view(before).push(f@));
                    assert(fv.take(i + 1) =~= fv.take(i as int).push(fv[i as int]));
                },
                Err(e) => {
                    assert(first_illformed(fv, i as int));
                    return Err(CorpusReaderError::IllformedFeature(e));
                },
            }
            i = i + 1;
        }
        assert(fv.take(fields@.len() as int) =~= fv);
        let mut k: usize = 0;
        assert(fv.take(0) =~= Seq::<Seq<char>>::empty());
        while k < fields.len()
            invariant
                k <= fields@.len(),
                fv == line_fields(header_line@),
                strings_view(fields@) == fv,
                forall|j: int| 0 <= j < fields@.len() ==> is_feature_name(#[trigger] fv[j]),
                distinct_names(fv.take(k as int)),
            decreases fields@.len() - k,
        {
            if repeats_earlier(&fields, k) {
                assert(first_repeat(fv, k as int));
                return Err(CorpusReaderError::DuplicateFeature(fields[k].clone()));
            }
            proof {
                lemma_push_distinct(fv.take(k as int), fv[k as int]);
                assert(fv.take(k + 1) =~= fv.take(k as int).push(fv[k as int]));
            }
            k = k + 1;
        }
        assert(fv.take(fields@.len() as int) =~= fv);
        Ok(CsvReader { description, header, sentence: Vec::new(), line_nr: 1 })
    }

    pub fn description(&self) -> (r: &'static str)
        ensures
            r == self.label(),
    {
        self.description
    }

    /// The number of lines read, the header included.
    pub fn line_number(&self) -> (r: usize)
        ensures
            r as nat == self.lines_read(),
    {
        self.line_nr
    }

    /// Takes the next line (without its line end). A `# ` line completes the
    /// sentence in progress, if there is one; a blank line does nothing; any
    /// other line adds a token of its fields, white space taken off its ends,
    /// padded to the header's length. A row with more
    /// fields than the header is an error that names its line.
    pub fn feed_line(&mut self, line: &str) -> (r: Result<Option<Sentence>, CorpusReaderError>)
        requires
            old(self).wf(),
            old(self).lines_read() < usize::MAX,
        ensures
            final(self).header_view() == old(self).header_view(),
            final(self).lines_read() == old(self).lines_read() + 1,
            r is Ok <==> row_fits(line@, old(self).header_view().len()),
            r is Ok ==> {
                &&& final(self).wf()
                &&& final(self).pending() == next_pending(
                    old(self).pending(),
                    line@,
                    old(self).header_view().len(),
                )
                &&& r->Ok_0 is Some <==> completed(old(self).pending(), line@) is Some
                &&& r->Ok_0 is Some ==> sentence_view(r->Ok_0->Some_0@) == old(self).pending()
            },
            r is Err ==> (r->Err_0 matches CorpusReaderError::TooManyColumns { line_nr, n_feats, row }
                && line_nr as nat == final(self).lines_read() && n_feats as nat
                == old(self).header_view().len() && token_view(row@) == line_fields(line@)),
    {
        self.line_nr = self.line_nr + 1;
        let n = self.header.len();
        let cs_boundary = Self::starts_sentence_marker(line);
        if cs_boundary {
            if self.sentence.len() > 0 {
                let mut done: Sentence = Vec::new();
                core::mem::swap(&mut done, &mut self.sentence);
                return Ok(Some(done));
            }
            return Ok(None);
        }
        let trimmed = trim_of(line);
        if trimmed.as_str().is_empty() {
            return Ok(None);
        }
        let token = parse_row(line, n);
        assert(token_view(token@).len() == token@.len());
        if token.len() > n {
            return Err(CorpusReaderError::TooManyColumns { line_nr: self.line_nr, n_feats: n, row: token });
        }
        let ghost before = self.sentence@;
        self.sentence.push(token);
        assert(sentence_view(self.sentence@) =~= sentence_view(before).push(token_view(token@)));
        Ok(None)
    }

    fn starts_sentence_marker(line: &str) -> (r: bool)
        ensures
            r == is_boundary(line@),
    {
        let cs = chars_of(line);
        cs.len() >= 2 && cs[0] == '#' && cs[1] == ' '
    }

    /// What holds of every well-formed reader: a header, and pending tokens of its length.
    pub proof fn lemma_wf(&self)
        requires
            self.wf(),
        ensures
            self.header_view().len() >= 1,
            distinct_names(self.header_view()),
            tokens_fit(self.pending(), self.header_view().len()),
    {
    }

    /// Ends the input: hands out the sentence in progress, if there is one.
    pub fn finish(&mut self) -> (r: Option<Sentence>)
        requires
            old(self).wf(),
        ensures
            final(self).wf(),
            final(self).header_view() == old(self).header_view(),
            final(self).lines_read() == old(self).lines_read(),
            final(self).pending().len() == 0,
            r is Some <==> old(self).pending().len() > 0,
            r is Some ==> sentence_view(r->Some_0@) == old(self).pending(),
    {
        if self.sentence.len() > 0 {
            let mut done: Sentence = Vec::new();
            core::mem::swap(&mut done, &mut self.sentence);
            Some(done)
        } else {
            None
        }
    }
}

/// Every token of `s` has `n` values.
pub open spec fn tokens_fit(s: Seq<Seq<Seq<char>>>, n: nat) -> bool {
    forall|i: int| 0 <= i < s.len() ==> (#[trigger] s[i]).len() == n
}

/// A reader of a corpus format: a header of features and the sentences after it.
pub trait CorpusReader {
    spec fn header_spec(&self) -> Seq<Seq<char>>;

    fn header(&self) -> (r: &[Feature])
        ensures
            features_view(r@) == self.header_spec(),
    ;
}

impl CorpusReader for CsvReader {
    open spec fn header_spec(&self) -> Seq<Seq<char>> {
        self.header_view()
    }

    fn header(&self) -> (r: &[Feature]) {
        self.header.as_slice()
    }
}

// ---------------------------------------------------------------------------
// Augmentation
// ---------------------------------------------------------------------------
/// The header with the derived features appended: first the reversed form
/// of the first feature (its name with `_rev`), then the sentence feature `s`,
/// each unless the options leave it out.
pub open spec fn augmented_header(h: Seq<Seq<char>>, o: CorpusReaderOptions) -> Seq<Seq<char>> {
    let a = if o.no_reversed_features {
        h
    } else {
        h.push(h[0] + seq!['_', 'r', 'e', 'v'])
    };
    if o.no_sentence_feature {
        a
    } else {
        a.push(seq!['s'])
    }
}

/// A token with the derived values appended: its first value reversed, and
/// `s` on the first token of a sentence, the empty value on the others.
pub open spec fn augmented_token(t: Seq<Seq<char>>, first: bool, o: CorpusReaderOptions) -> Seq<
    Seq<char>,
> {
    let a = if o.no_reversed_features {
        t
    } else {
        t.push(t[0].reverse())
    };
    if o.no_sentence_feature {
        a
    } else {
        a.push(
            if first {
                seq!['s']
            } else {
                Seq::<char>::empty()
            },
        )
    }
}

pub open spec fn augmented_sentence(s: Seq<Seq<Seq<char>>>, o: CorpusReaderOptions) -> Seq<
    Seq<Seq<char>>,
> {
    Seq::new(s.len(), |i: int| augmented_token(s[i], i == 0, o))
}

/// Each of the sentences, augmented.
pub open spec fn augmented_all(ss: Seq<Seq<Seq<Seq<char>>>>, o: CorpusReaderOptions) -> Seq<
    Seq<Seq<Seq<char>>>,
> {
    ss.map_values(|s: Seq<Seq<Seq<char>>>| augmented_sentence(s, o))
}

pub open spec fn sentences_views(v: Seq<Sentence>) -> Seq<Seq<Seq<Seq<char>>>> {
    v.map_values(|s: Sentence| sentence_view(s@))
}

/// The number of derived features that the options ask for.
pub open spec fn n_augmentations(o: CorpusReaderOptions) -> nat {
    (if o.no_reversed_features {
        0nat
    } else {
        1nat
    }) + (if o.no_sentence_feature {
        0nat
    } else {
        1nat
    })
}

fn augment_token(t: &Token, first: bool, args: CorpusReaderOptions) -> (r: Token)
    requires
        t@.len() >= 1,
    ensures
        token_view(r@) == augmented_token(token_view(t@), first, args),
{
    let mut out: Token = Vec::new();
    let mut j: usize = 0;
    while j < t.len()
        invariant
            j <= t@.len(),
            token_view(out@) =~= token_view(t@).take(j as int),
        decreases t@.len() - j,
    {
        let ghost before = out@;
        let v = t[j].clone();
        out.push(v);
        assert(token_view(out@) =~= token_view(before).push(v@));
        assert(token_view(t@).take(j + 1) =~= token_view(t@).take(j as int).push(t@[j as int]@));
        j = j + 1;
    }
    assert(token_view(t@).take(t@.len() as int) =~= token_view(t@));
    if !args.no_reversed_features {
        let ghost before = out@;
        let v = FValue::from_string(reverse_chars(t[0].as_str()));
        out.push(v);
        assert(token_view(out@) =~= token_view(before).push(v@));
    }
    if !args.no_sentence_feature {
        let ghost before = out@;
        let v = if first {
            FValue::start()
        } else {
            FValue::empty()
        };
        out.push(v);
        assert(token_view(out@) =~= token_view(before).push(v@));
    }
    out
}

/// Appends the derived values to every token of a sentence.
pub fn augment_sentence(sentence: &Sentence, args: CorpusReaderOptions) -> (r: Sentence)
    requires
        forall|i: int| 0 <= i < sentence@.len() ==> (#[trigger] sentence@[i])@.len() >= 1,
    ensures
        sentence_view(r@) == augmented_sentence(sentence_view(sentence@), args),
{
    let mut out: Sentence = Vec::new();
    let mut i: usize = 0;
    while i < sentence.len()
        invariant
            i <= sentence@.len(),
            forall|k: int| 0 <= k < sentence@.len() ==> (#[trigger] sentence@[k])@.len() >= 1,
            sentence_view(out@) =~= augmented_sentence(sentence_view(sentence@), args).take(
                i as int,
            ),
        decreases sentence@.len() - i,
    {
        let ghost before = out@;
        let t = augment_token(&sentence[i], i == 0, args);
        out.push(t);
        assert(sentence_view(out@) =~= sentence_view(before).push(token_view(t@)));
        i = i + 1;
    }
    out
}

/// The name of the feature that holds the first feature's values reversed.
pub open spec fn reversed_name(h: Seq<Seq<char>>) -> Seq<char> {
    h[0] + seq!['_', 'r', 'e', 'v']
}

/// Whether the derived features that the options ask for have names that
/// the header does not already hold.
pub open spec fn derived_names_fresh(h: Seq<Seq<char>>, o: CorpusReaderOptions) -> bool {
    &&& (o.no_reversed_features || !h.contains(reversed_name(h)))
    &&& (o.no_sentence_feature || !h.contains(seq!['s']))
}

/// Whether `name` stands among the features of `base`.
fn has_feature(base: &[Feature], name: &Feature) -> (r: bool)
    ensures
        r == features_view(base@).contains(name@),
{
    let ghost fv = features_view(base@);
    let mut j: usize = 0;
    while j < base.len()
        invariant
            j <= base@.len(),
            fv == features_view(base@),
            forall|k: int| 0 <= k < j ==> fv[k] != name@,
        decreases base@.len() - j,
    {
        if same_text(base[j].as_str(), name.as_str()) {
            assert(fv[j as int] == name@);
            return true;
        }
        j = j + 1;
    }
    false
}

/// Refuses options whose derived features would repeat a name of `header`:
/// the reversed feature's name is tried first, then `s`.
pub fn check_derived_names(header: &[Feature], args: CorpusReaderOptions) -> (r: Result<
    (),
    CorpusReaderError,
>)
    requires
        header@.len() >= 1,
    ensures
        r is Ok <==> derived_names_fresh(features_view(header@), args),
        r is Err ==> (r->Err_0 matches CorpusReaderError::DuplicateFeature(s) && features_view(
            header@,
        ).contains(s@) && ((!args.no_reversed_features && s@ == reversed_name(
            features_view(header@),
        )) || (!args.no_sentence_feature && s@ == seq!['s']))),
{
    if !args.no_reversed_features {
        let rev = header[0].reversed();
        if has_feature(header, &rev) {
            return Err(CorpusReaderError::DuplicateFeature(rev.as_str().to_owned()));
        }
    }
    if !args.no_sentence_feature {
        let sf = Feature::sentence();
        if has_feature(header, &sf) {
            return Err(CorpusReaderError::DuplicateFeature(sf.as_str().to_owned()));
        }
    }
    Ok(())
}

/// A reader that appends derived features to the header and to every token
/// of the reader it wraps, as its options ask.
pub struct AugumentedReader {
    wrapped: CsvReader,
    args: CorpusReaderOptions,
    header: Vec<Feature>,
}

impl AugumentedReader {
    /// The wrapped reader's header, before augmentation.
    pub closed spec fn base_header(&self) -> Seq<Seq<char>> {
        self.wrapped.header_view()
    }

    /// The augmented header.
    pub closed spec fn header_view(&self) -> Seq<Seq<char>> {
        features_view(self.header@)
    }

    pub closed spec fn options(&self) -> CorpusReaderOptions {
        self.args
    }

    /// The tokens of the sentence in progress, before augmentation.
    pub closed spec fn pending(&self) -> Seq<Seq<Seq<char>>> {
        self.wrapped.pending()
    }

    pub closed spec fn lines_read(&self) -> nat {
        self.wrapped.lines_read()
    }

    pub closed spec fn wf(&self) -> bool {
        &&& self.wrapped.wf()
        &&& self.header_view() == augmented_header(self.base_header(), self.args)
        &&& distinct_names(self.header_view())
    }

    /// What holds of every well-formed reader: a header of distinct names,
    /// the augmented one of its wrapped reader, and pending tokens of the
    /// wrapped header's length.
    pub proof fn lemma_wf(&self)
        requires
            self.wf(),
        ensures
            self.base_header().len() >= 1,
            distinct_names(self.base_header()),
            distinct_names(self.header_view()),
            self.header_view() == augmented_header(self.base_header(), self.options()),
            tokens_fit(self.pending(), self.base_header().len()),
    {
        self.wrapped.lemma_wf();
    }

    /// Wraps `reader`, adding the derived features that `args` asks for,
    /// whose names the header must not already hold.
    pub fn new(reader: CsvReader, args: CorpusReaderOptions) -> (r: Self)
        requires
            reader.wf(),
            derived_names_fresh(reader.header_view(), args),
        ensures
            r.wf(),
            r.base_header() == reader.header_view(),
            r.header_view() == augmented_header(reader.header_view(), args),
            distinct_names(r.header_view()),
            r.options() == args,
            r.pending() == reader.pending(),
            r.lines_read() == reader.lines_read(),
    {
        proof {
            reader.lemma_wf();
        }
        let ghost h = reader.header_view();
        let base = reader.header();
        let mut header: Vec<Feature> = Vec::new();
        let mut i: usize = 0;
        while i < base.len()
            invariant
                i <= base@.len(),
                features_view(header@) =~= features_view(base@).take(i as int),
            decreases base@.len() - i,
        {
            let ghost before = header@;
            let f = base[i].clone();
            header.push(f);
            assert(features_view(header@) =~= features_view(before).push(f@));
            assert(features_view(base@).take(i + 1) =~= features_view(base@).take(i as int).push(
                base@[i as int]@,
            ));
            i = i + 1;
        }
        assert(features_view(base@).take(base@.len() as int) =~= features_view(base@));
        let ghost with_rev = features_view(header@);
        if !args.no_reversed_features {
            let ghost before = header@;
            let f = base[0].reversed();
            header.push(f);
            assert(features_view(header@) =~= features_view(before).push(f@));
            proof {
                lemma_push_distinct(h, f@);
            }
        }
        proof {
            with_rev = features_view(header@);
        }
        if !args.no_sentence_feature {
            let ghost before = header@;
            let f = Feature::sentence();
            header.push(f);
            assert(features_view(header@) =~= features_view(before).push(f@));
            proof {
                if !args.no_reversed_features {
                    assert(with_rev.last() != f@) by {
                        assert(with_rev.last().len() >= 4);
                    }
                    assert(!with_rev.contains(f@)) by {
                        if with_rev.contains(f@) {
                            let k = choose|k: int| 0 <= k < with_rev.len() && with_rev[k] == f@;
                            if k < h.len() {
                                assert(h[k] == with_rev[k]);
                            }
                        }
                    }
                }
                lemma_push_distinct(with_rev, f@);
            }
        }
        AugumentedReader { wrapped: reader, args, header }
    }

    /// Takes the next line, as the wrapped reader does, and hands out each
    /// completed sentence with its derived values.
    pub fn feed_line(&mut self, line: &str) -> (r: Result<Option<Sentence>, CorpusReaderError>)
        requires
            old(self).wf(),
            old(self).lines_read() < usize::MAX,
        ensures
            final(self).header_view() == old(self).header_view(),
            final(self).base_header() == old(self).base_header(),
            final(self).options() == old(self).options(),
            final(self).lines_read() == old(self).lines_read() + 1,
            r is Ok <==> row_fits(line@, old(self).base_header().len()),
            r is Ok ==> {
                &&& final(self).wf()
                &&& final(self).pending() == next_pending(
                    old(self).pending(),
                    line@,
                    old(self).base_header().len(),
                )
                &&& r->Ok_0 is Some <==> completed(old(self).pending(), line@) is Some
                &&& r->Ok_0 is Some ==> sentence_view(r->Ok_0->Some_0@) == augmented_sentence(
                    old(self).pending(),
                    old(self).options(),
                )
                &&& r->Ok_0 is Some ==> tokens_fit(
                    sentence_view(r->Ok_0->Some_0@),
                    final(self).header_view().len(),
                )
            },
            r is Err ==> (r->Err_0 matches CorpusReaderError::TooManyColumns { line_nr, n_feats, row }
                && line_nr as nat == final(self).lines_read() && n_feats as nat
                == old(self).base_header().len() && token_view(row@) == line_fields(line@)),
    {
        proof {
            self.lemma_wf();
            lemma_augmented_fit(self.base_header(), self.pending(), self.options());
        }
        let res = self.wrapped.feed_line(line);
        match res {
            Ok(Some(s)) => {
                assert forall|i: int| 0 <= i < s@.len() implies (#[trigger] s@[i])@.len() >= 1 by {
                    assert(sentence_view(s@)[i] == token_view(s@[i]@));
                }
                Ok(Some(augment_sentence(&s, self.args)))
            },
            other => other,
        }
    }

    /// Ends the input: hands out the sentence in progress with its derived
    /// values, if there is one.
    pub fn finish(&mut self) -> (r: Option<Sentence>)
        requires
            old(self).wf(),
        ensures
            final(self).wf(),
            final(self).header_view() == old(self).header_view(),
            final(self).base_header() == old(self).base_header(),
            final(self).options() == old(self).options(),
            final(self).lines_read() == old(self).lines_read(),
            final(self).pending().len() == 0,
            r is Some <==> old(self).pending().len() > 0,
            r is Some ==> sentence_view(r->Some_0@) == augmented_sentence(
                old(self).pending(),
                old(self).options(),
            ),
            r is Some ==> tokens_fit(sentence_view(r->Some_0@), final(self).header_view().len()),
    {
        proof {
            self.lemma_wf();
            lemma_augmented_fit(self.base_header(), self.pending(), self.options());
        }
        match self.wrapped.finish() {
            Some(s) => {
                assert forall|i: int| 0 <= i < s@.len() implies (#[trigger] s@[i])@.len() >= 1 by {
                    assert(sentence_view(s@)[i] == token_view(s@[i]@));
                }
                Some(augment_sentence(&s, self.args))
            },
            None => None,
        }
    }

    pub fn line_number(&self) -> (r: usize)
        ensures
            r as nat == self.lines_read(),
    {
        self.wrapped.line_number()
    }

    /// Reads `lines` to the end of the input and hands out every sentence,
    /// with its derived values; a row with too many fields stops it.
    pub fn sentences(&mut self, lines: &Vec<String>) -> (r: Result<Vec<Sentence>, CorpusReaderError>)
        requires
            old(self).wf(),
            old(self).lines_read() + lines@.len() <= usize::MAX,
        ensures
            final(self).header_view() == old(self).header_view(),
            r is Ok <==> forall|k: int|
                0 <= k < lines@.len() ==> row_fits(
                    #[trigger] lines@[k]@,
                    old(self).base_header().len(),
                ),
            r is Ok ==> {
                &&& final(self).wf()
                &&& final(self).pending().len() == 0
                &&& sentences_views(r->Ok_0@) == augmented_all(
                    sentences_read(
                        old(self).pending(),
                        strings_view(lines@),
                        old(self).base_header().len(),
                    ),
                    old(self).options(),
                )
            },
            r is Err ==> r->Err_0 is TooManyColumns,
    {
        let ghost p0 = self.pending();
        let ghost n = self.base_header().len();
        let ghost o = self.args;
        let ghost all = strings_view(lines@);
        let ghost l0 = self.lines_read();
        let mut out: Vec<Sentence> = Vec::new();
        let mut i: usize = 0;
        assert(all.subrange(0, all.len() as int) =~= all);
        while i < lines.len()
            invariant
                i <= lines@.len(),
                all == strings_view(lines@),
                n == old(self).base_header().len(),
                o == old(self).options(),
                p0 == old(self).pending(),
                self.wf(),
                self.base_header().len() == n,
                self.header_view() == old(self).header_view(),
                self.options() == o,
                self.lines_read() == l0 + i,
                l0 + lines@.len() <= usize::MAX,
                forall|k: int| 0 <= k < i ==> row_fits(#[trigger] lines@[k]@, n),
                sentences_views(out@) + augmented_all(
                    sentences_read(self.pending(), all.subrange(i as int, all.len() as int), n),
                    o,
                ) == augmented_all(sentences_read(p0, all, n), o),
            decreases lines@.len() - i,
        {
            let ghost p = self.pending();
            let ghost rest = all.subrange(i as int, all.len() as int);
            let ghost before = out@;
            assert(rest.drop_first() =~= all.subrange(i + 1, all.len() as int));
            assert(rest[0] == lines@[i as int]@);
            let res = self.feed_line(lines[i].as_str());
            match res {
                Err(e) => {
                    assert(!row_fits(lines@[i as int]@, n));
                    return Err(e);
                },
                Ok(opt) => {
                    let ghost tail = sentences_read(self.pending(), rest.drop_first(), n);
                    match opt {
                        Some(done) => {
                            out.push(done);
                            assert(sentences_views(out@) =~= sentences_views(before).push(
                                sentence_view(done@),
                            ));
                            assert(augmented_all(seq![p] + tail, o) =~= seq![
                                augmented_sentence(p, o),
                            ] + augmented_all(tail, o));
                            assert(sentences_views(out@) + augmented_all(tail, o) =~= sentences_views(
                                before,
                            ) + augmented_all(seq![p] + tail, o));
                        },
                        None => {},
                    }
                },
            }
            i = i + 1;
        }
        let ghost p = self.pending();
        let ghost before = out@;
        assert(all.subrange(all.len() as int, all.len() as int).len() == 0);
        match self.finish() {
            Some(done) => {
                out.push(done);
                assert(sentences_views(out@) =~= sentences_views(before).push(
                    sentence_view(done@),
                ));
                assert(augmented_all(seq![p], o) =~= seq![augmented_sentence(p, o)]);
                assert(sentences_views(out@) =~= sentences_views(before) + augmented_all(
                    seq![p],
                    o,
                ));
            },
            None => {
                assert(sentences_views(out@) =~= sentences_views(before) + augmented_all(
                    Seq::empty(),
                    o,
                ));
            },
        }
        Ok(out)
    }
}

impl CorpusReader for AugumentedReader {
    open spec fn header_spec(&self) -> Seq<Seq<char>> {
        self.header_view()
    }

    fn header(&self) -> (r: &[Feature]) {
        self.header.as_slice()
    }
}

/// Whether a reader handles files of this path: the format suffix must be `csv`.
pub fn supported_file_type(path: &str) -> (r: Result<(), CorpusReaderError>)
    ensures
        r is Ok <==> logical_suffix(path@) == seq!['c', 's', 'v'],
        r is Err ==> (r->Err_0 matches CorpusReaderError::UnsupportedFileType(s) && s@
            == logical_suffix(path@)),
{
    let suffix = uncompressed_suffix(path);
    let cs = chars_of(suffix.as_str());
    if cs.len() == 3 && cs[0] == 'c' && cs[1] == 's' && cs[2] == 'v' {
        assert(cs@ =~= seq!['c', 's', 'v']);
        Ok(())
    } else {
        Err(CorpusReaderError::UnsupportedFileType(suffix))
    }
}

/// The reader for the corpus file at `path`, whose first line is
/// `header_line`: the format is chosen by the path's suffix, the header is
/// read, and the derived features are added as `args` asks. A derived name
/// that the header already holds is refused with the header.
pub fn corpus_reader(
    path: &str,
    header_line: &str,
    description: &'static str,
    args: CorpusReaderOptions,
) -> (r: Result<AugumentedReader, CorpusReaderError>)
    ensures
        r is Ok <==> logical_suffix(path@) == seq!['c', 's', 'v'] && header_accepted(
            line_fields(header_line@),
        ) && derived_names_fresh(line_fields(header_line@), args),
        logical_suffix(path@) != seq!['c', 's', 'v'] ==> (r matches Err(
            CorpusReaderError::UnsupportedFileType(s),
        ) && s@ == logical_suffix(path@)),
        logical_suffix(path@) == seq!['c', 's', 'v'] && !header_accepted(line_fields(header_line@))
            ==> r is Err && header_error(line_fields(header_line@), r->Err_0),
        logical_suffix(path@) == seq!['c', 's', 'v'] && header_accepted(line_fields(header_line@))
            && !derived_names_fresh(line_fields(header_line@), args) ==> (r matches Err(
            CorpusReaderError::DuplicateFeature(s),
        ) && line_fields(header_line@).contains(s@)),
        r is Ok ==> {
            let c = r->Ok_0;
            &&& c.wf()
            &&& c.base_header() == line_fields(header_line@)
            &&& c.header_view() == augmented_header(line_fields(header_line@), args)
            &&& distinct_names(c.header_view())
            &&& c.options() == args
            &&& c.pending().len() == 0
            &&& c.lines_read() == 1
        },
{
    supported_file_type(path)?;
    let reader = CsvReader::new(header_line, description)?;
    proof {
        reader.lemma_wf();
    }
    check_derived_names(reader.header(), args)?;
    Ok(AugumentedReader::new(reader, args))
}

// ---------------------------------------------------------------------------
// What holds of every input
// ---------------------------------------------------------------------------
/// A row with fewer fields than the header has features becomes a token of
/// exactly the header's length: its own fields, then empty values.
pub proof fn lemma_short_row_padded(line: Seq<char>, n: nat)
    requires
        line_fields(line).len() < n,
    ensures
        row_token(line, n).len() == n,
        forall|i: int| 0 <= i < line_fields(line).len() ==> #[trigger] row_token(line, n)[i] == line_fields(line)[i],
        forall|i: int| line_fields(line).len() <= i < n ==> #[trigger] row_token(line, n)[i] == Seq::<char>::empty(),
{
}

/// The sentences that reading `lines` hands out, the end of the input
/// included, from a reader whose sentence in progress is `pending`.
pub open spec fn sentences_read(pending: Seq<Seq<Seq<char>>>, lines: Seq<Seq<char>>, n: nat) -> Seq<
    Seq<Seq<Seq<char>>>,
>
    decreases lines.len(),
{
    if lines.len() == 0 {
        if pending.len() > 0 {
            seq![pending]
        } else {
            Seq::empty()
        }
    } else {
        let rest = sentences_read(next_pending(pending, lines[0], n), lines.drop_first(), n);
        match completed(pending, lines[0]) {
            Some(done) => seq![done] + rest,
            None => rest,
        }
    }
}

/// The sentence in progress after the first `k` lines, from a fresh reader.
pub open spec fn pending_after(lines: Seq<Seq<char>>, k: int, n: nat) -> Seq<Seq<Seq<char>>>
    decreases k,
{
    if k <= 0 {
        Seq::empty()
    } else {
        next_pending(pending_after(lines, k - 1, n), lines[k - 1], n)
    }
}

/// Whether a data line stands among the first `k` lines after the last
/// boundary marker among them.
pub open spec fn open_before(lines: Seq<Seq<char>>, k: int) -> bool
    decreases k,
{
    if k <= 0 {
        false
    } else if is_boundary(lines[k - 1]) {
        false
    } else if is_data(lines[k - 1]) {
        true
    } else {
        open_before(lines, k - 1)
    }
}

/// The number of boundary markers among the first `k` lines that follow at
/// least one token since the marker before them.
pub open spec fn closing_markers(lines: Seq<Seq<char>>, k: int) -> nat
    decreases k,
{
    if k <= 0 {
        0
    } else {
        closing_markers(lines, k - 1) + if is_boundary(lines[k - 1]) && open_before(lines, k - 1) {
            1nat
        } else {
            0nat
        }
    }
}

proof fn lemma_pending_open(lines: Seq<Seq<char>>, k: int, n: nat)
    requires
        0 <= k <= lines.len(),
    ensures
        pending_after(lines, k, n).len() > 0 <==> open_before(lines, k),
    decreases k,
{
    if k > 0 {
        lemma_pending_open(lines, k - 1, n);
    }
}

proof fn lemma_count_prefix(lines: Seq<Seq<char>>, k: int, n: nat)
    requires
        0 <= k <= lines.len(),
    ensures
        sentences_read(Seq::empty(), lines, n).len() == closing_markers(lines, k) + sentences_read(
            pending_after(lines, k, n),
            lines.subrange(k, lines.len() as int),
            n,
        ).len(),
    decreases k,
{
    if k == 0 {
        assert(lines.subrange(0, lines.len() as int) =~= lines);
    } else {
        lemma_count_prefix(lines, k - 1, n);
        lemma_pending_open(lines, k - 1, n);
        let tail = lines.subrange(k - 1, lines.len() as int);
        assert(tail.drop_first() =~= lines.subrange(k, lines.len() as int));
        assert(tail[0] == lines[k - 1]);
    }
}

/// The number of sentences that a reader hands out for a run of lines is the
/// number of boundary markers that close at least one token, plus one where
/// the input ends inside a sentence: leading and repeated markers give none.
pub proof fn lemma_sentence_count(lines: Seq<Seq<char>>, n: nat)
    ensures
        sentences_read(Seq::empty(), lines, n).len() == closing_markers(lines, lines.len() as int)
            + if open_before(lines, lines.len() as int) {
            1nat
        } else {
            0nat
        },
{
    lemma_count_prefix(lines, lines.len() as int, n);
    lemma_pending_open(lines, lines.len() as int, n);
    assert(lines.subrange(lines.len() as int, lines.len() as int).len() == 0);
}

/// The sentences that the first `k` lines complete, from a fresh reader.
pub open spec fn completed_upto(lines: Seq<Seq<char>>, k: int, n: nat) -> Seq<Seq<Seq<Seq<char>>>>
    decreases k,
{
    if k <= 0 {
        Seq::empty()
    } else {
        let before = completed_upto(lines, k - 1, n);
        match completed(pending_after(lines, k - 1, n), lines[k - 1]) {
            Some(done) => before.push(done),
            None => before,
        }
    }
}

proof fn lemma_read_prefix(lines: Seq<Seq<char>>, k: int, n: nat)
    requires
        0 <= k <= lines.len(),
    ensures
        sentences_read(Seq::empty(), lines, n) == completed_upto(lines, k, n) + sentences_read(
            pending_after(lines, k, n),
            lines.subrange(k, lines.len() as int),
            n,
        ),
    decreases k,
{
    if k == 0 {
        assert(lines.subrange(0, lines.len() as int) =~= lines);
        assert(completed_upto(lines, 0, n) + sentences_read(Seq::empty(), lines, n) =~= sentences_read(
            Seq::empty(),
            lines,
            n,
        ));
    } else {
        lemma_read_prefix(lines, k - 1, n);
        let tail = lines.subrange(k - 1, lines.len() as int);
        assert(tail.drop_first() =~= lines.subrange(k, lines.len() as int));
        assert(tail[0] == lines[k - 1]);
        let p = pending_after(lines, k - 1, n);
        let rest = sentences_read(pending_after(lines, k, n), lines.subrange(k, lines.len() as int), n);
        match completed(p, lines[k - 1]) {
            Some(done) => {
                assert(completed_upto(lines, k - 1, n) + (seq![done] + rest) =~= completed_upto(
                    lines,
                    k - 1,
                    n,
                ).push(done) + rest);
            },
            None => {},
        }
    }
}

/// A sentence still open when the input ends is handed out exactly once, as
/// the last sentence; where none is open, the last sentence handed out is
/// the last one that a marker completed.
pub proof fn lemma_open_sentence_last(lines: Seq<Seq<char>>, n: nat)
    ensures
        sentences_read(Seq::empty(), lines, n) == completed_upto(lines, lines.len() as int, n) + if pending_after(
            lines,
            lines.len() as int,
            n,
        ).len() > 0 {
            seq![pending_after(lines, lines.len() as int, n)]
        } else {
            Seq::empty()
        },
        open_before(lines, lines.len() as int) ==> sentences_read(Seq::empty(), lines, n).last()
            == pending_after(lines, lines.len() as int, n),
{
    lemma_read_prefix(lines, lines.len() as int, n);
    lemma_pending_open(lines, lines.len() as int, n);
    assert(lines.subrange(lines.len() as int, lines.len() as int).len() == 0);
}

/// Every sentence that a reader hands out is non-empty.
pub proof fn lemma_sentences_nonempty(pending: Seq<Seq<Seq<char>>>, lines: Seq<Seq<char>>, n: nat)
    ensures
        forall|i: int| 0 <= i < sentences_read(pending, lines, n).len() ==> (#[trigger] sentences_read(pending, lines, n)[i]).len() > 0,
    decreases lines.len(),
{
    if lines.len() > 0 {
        let next = next_pending(pending, lines[0], n);
        lemma_sentences_nonempty(next, lines.drop_first(), n);
        let rest = sentences_read(next, lines.drop_first(), n);
        let all = sentences_read(pending, lines, n);
        assert forall|i: int| 0 <= i < all.len() implies (#[trigger] all[i]).len() > 0 by {
            if completed(pending, lines[0]) is Some {
                if i > 0 {
                    assert(all[i] == rest[i - 1]);
                }
            } else {
                assert(all[i] == rest[i]);
            }
        }
    }
}

/// Augmenting a header of N features gives N more than the number of
/// augmentations asked for, appended in a fixed order after the N features,
/// which stay as they were; tokens of the header's length grow alike, and a
/// sentence keeps its tokens and their order.
pub proof fn lemma_augmented_shape(
    h: Seq<Seq<char>>,
    t: Seq<Seq<char>>,
    s: Seq<Seq<Seq<char>>>,
    first: bool,
    o: CorpusReaderOptions,
)
    requires
        h.len() >= 1,
        t.len() == h.len(),
    ensures
        augmented_header(h, o).len() == h.len() + n_augmentations(o),
        augmented_header(h, o).subrange(0, h.len() as int) == h,
        augmented_token(t, first, o).len() == augmented_header(h, o).len(),
        augmented_token(t, first, o).subrange(0, t.len() as int) == t,
        augmented_sentence(s, o).len() == s.len(),
        forall|i: int| 0 <= i < s.len() && s[i].len() >= 1 ==> (#[trigger] augmented_sentence(s, o)[i]).subrange(0, s[i].len() as int) == s[i],
{
    assert(augmented_header(h, o).subrange(0, h.len() as int) =~= h);
    assert(augmented_token(t, first, o).subrange(0, t.len() as int) =~= t);
    assert forall|i: int| 0 <= i < s.len() && s[i].len() >= 1 implies (#[trigger] augmented_sentence(s, o)[i]).subrange(0, s[i].len() as int) == s[i] by {
        assert(augmented_token(s[i], i == 0, o).subrange(0, s[i].len() as int) =~= s[i]);
    }
}

/// The tokens of an augmented sentence have the augmented header's length
/// when the tokens before had the header's length.
pub proof fn lemma_augmented_fit(h: Seq<Seq<char>>, s: Seq<Seq<Seq<char>>>, o: CorpusReaderOptions)
    requires
        h.len() >= 1,
        tokens_fit(s, h.len()),
    ensures
        tokens_fit(augmented_sentence(s, o), augmented_header(h, o).len()),
{
    assert forall|i: int| 0 <= i < augmented_sentence(s, o).len() implies (#[trigger] augmented_sentence(s, o)[i]).len() == augmented_header(h, o).len() by {
        assert(s[i].len() == h.len());
    }
}

} // verus!
