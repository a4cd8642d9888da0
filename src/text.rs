use vstd::prelude::*;
use vstd::std_specs::iter::IteratorSpec;
use vstd::string::*;

verus! {

/// The fields of `s` between tab characters, in order; a string without a
/// tab is one field, and the empty string is one empty field.
pub open spec fn split_tabs(s: Seq<char>) -> Seq<Seq<char>>
    decreases s.len(),
{
    if s.len() == 0 {
        seq![Seq::<char>::empty()]
    } else {
        let p = split_tabs(s.drop_last());
        if s.last() == '\t' {
            p.push(Seq::<char>::empty())
        } else {
            p.update(p.len() - 1, p.last().push(s.last()))
        }
    }
}

/// Splitting never gives an empty list of fields.
pub proof fn lemma_split_tabs_nonempty(s: Seq<char>)
    ensures
        split_tabs(s).len() >= 1,
    decreases s.len(),
{
    if s.len() > 0 {
        lemma_split_tabs_nonempty(s.drop_last());
    }
}

/// Whether std counts `c` as white space: the Unicode `White_Space` property.
pub uninterp spec fn white_space(c: char) -> bool;

/// Relies on char::is_whitespace, whose result depends on the character alone.
#[verifier::external_body]
fn is_white_space(c: char) -> (r: bool)
    ensures
        r == white_space(c),
{
    c.is_whitespace()
}

/// `s` without its leading white space.
pub open spec fn trim_start(s: Seq<char>) -> Seq<char>
    decreases s.len(),
{
    if s.len() > 0 && white_space(s[0]) {
        trim_start(s.drop_first())
    } else {
        s
    }
}

/// `s` without its trailing white space.
pub open spec fn trim_end(s: Seq<char>) -> Seq<char>
    decreases s.len(),
{
    if s.len() > 0 && white_space(s.last()) {
        trim_end(s.drop_last())
    } else {
        s
    }
}

/// `s` without white space at either end.
pub open spec fn trim(s: Seq<char>) -> Seq<char> {
    trim_end(trim_start(s))
}

/// Takes the white space off both ends of `s`.
pub fn trim_of(s: &str) -> (r: String)
    ensures
        r@ == trim(s@),
{
    let cs = chars_of(s);
    let n = cs.len();
    let mut lo: usize = 0;
    assert(cs@.subrange(0, n as int) =~= cs@);
    while lo < n && is_white_space(cs[lo])
        invariant
            lo <= n == cs@.len(),
            trim_start(cs@) == trim_start(cs@.subrange(lo as int, n as int)),
        decreases n - lo,
    {
        assert(cs@.subrange(lo as int, n as int).drop_first() =~= cs@.subrange(lo + 1, n as int));
        lo = lo + 1;
    }
    let ghost start = cs@.subrange(lo as int, n as int);
    assert(trim_start(start) == start);
    let mut hi: usize = n;
    while hi > lo && is_white_space(cs[hi - 1])
        invariant
            lo <= hi <= n == cs@.len(),
            start == cs@.subrange(lo as int, n as int),
            trim_end(start) == trim_end(cs@.subrange(lo as int, hi as int)),
        decreases hi,
    {
        assert(cs@.subrange(lo as int, hi as int).drop_last() =~= cs@.subrange(lo as int, hi - 1));
        hi = hi - 1;
    }
    assert(s@ == cs@);
    s.substring_char(lo, hi).to_owned()
}

/// The views of a list of strings.
pub open spec fn strings_view(v: Seq<String>) -> Seq<Seq<char>> {
    v.map_values(|x: String| x@)
}

/// The characters of `s`, in order.
pub(crate) fn chars_of(s: &str) -> (r: Vec<char>)
    ensures
        r@ == s@,
{
    broadcast use vstd::string::axiom_spec_iter, vstd::string::next_postcondition;

    let mut it = s.chars();
    let mut out: Vec<char> = Vec::new();
    loop
        invariant
            it.obeys_prophetic_iter_laws(),
            it.decrease() is Some,
            out@ + it.remaining() == s@,
        ensures
            out@ == s@,
        decreases it.decrease()->0,
    {
        match it.next() {
            Some(c) => {
                let ghost before = out@;
                out.push(c);
                assert(out@ + it.remaining() =~= before + seq![c] + it.remaining());
            },
            None => {
                assert(out@ =~= s@);
                break ;
            },
        }
    }
    out
}

/// Splits `s` at every tab.
pub fn split_tabs_of(s: &str) -> (r: Vec<String>)
    ensures
        strings_view(r@) == split_tabs(s@),
{
    let cs = chars_of(s);
    let mut fields: Vec<String> = Vec::new();
    let mut start: usize = 0;
    let mut i: usize = 0;
    assert(cs@.take(0) =~= Seq::<char>::empty());
    assert(strings_view(fields@).push(cs@.subrange(0, 0)) =~= split_tabs(cs@.take(0)));
    while i < cs.len()
        invariant
            start <= i <= cs@.len(),
            cs@ == s@,
            strings_view(fields@).push(cs@.subrange(start as int, i as int)) == split_tabs(
                cs@.take(i as int),
            ),
        decreases cs@.len() - i,
    {
        let c = cs[i];
        let ghost before = cs@.take(i as int);
        assert(cs@.take(i as int + 1).drop_last() =~= before);
        assert(cs@.take(i as int + 1).last() == c);
        let ghost fv = strings_view(fields@);
        let ghost p = split_tabs(before);
        let ghost cur = cs@.subrange(start as int, i as int);
        if c == '\t' {
            let field = s.substring_char(start, i).to_owned();
            fields.push(field);
            start = i + 1;
            assert(strings_view(fields@) =~= fv.push(field@));
            assert(cs@.subrange(start as int, i + 1) =~= Seq::<char>::empty());
            assert(strings_view(fields@).push(cs@.subrange(start as int, i + 1)) =~= p.push(
                Seq::<char>::empty(),
            ));
        } else {
            assert(cs@.subrange(start as int, i + 1) =~= cur.push(c));
            assert(strings_view(fields@).push(cs@.subrange(start as int, i + 1)) =~= p.update(
                p.len() - 1,
                p.last().push(c),
            ));
        }
        i = i + 1;
    }
    assert(cs@.take(cs@.len() as int) =~= cs@);
    let ghost fv = strings_view(fields@);
    let last = s.substring_char(start, cs.len()).to_owned();
    fields.push(last);
    assert(strings_view(fields@) =~= fv.push(last@));
    fields
}

/// The string `s` with its characters in reverse order.
pub fn reverse_chars(s: &str) -> (r: String)
    ensures
        r@ == s@.reverse(),
{
    let n = s.unicode_len();
    let mut out = String::new();
    let mut k: usize = n;
    while k > 0
        invariant
            k <= n == s@.len(),
            out@ =~= Seq::new((n - k) as nat, |j: int| s@[n - 1 - j]),
        decreases k,
    {
        let piece = s.substring_char(k - 1, k);
        assert(piece@ =~= seq![s@[k - 1]]);
        out.append(piece);
        k = k - 1;
    }
    out
}

} // verus!
