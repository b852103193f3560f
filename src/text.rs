use vstd::prelude::*;

verus! {

/// Relies on `str::chars` collected into a `Vec`: the characters of `s`, in order.
#[verifier::external_body]
pub(crate) fn chars_of(s: &str) -> (r: Vec<char>)
    ensures
        r@ == s@,
{
    s.chars().collect()
}

/// Relies on collecting a `char` iterator into a `String`: the same characters, in order.
#[verifier::external_body]
pub(crate) fn string_of(v: &Vec<char>) -> (r: String)
    ensures
        r@ == v@,
{
    v.iter().collect()
}

/// The views of a sequence of character vectors.
pub open spec fn seqs_of(v: Seq<Vec<char>>) -> Seq<Seq<char>> {
    v.map_values(|x: Vec<char>| x@)
}

/// `sep` occurs in `s` at position `i`.
pub open spec fn occurs_at(s: Seq<char>, sep: Seq<char>, i: int) -> bool {
    0 <= i && i + sep.len() <= s.len() && s.subrange(i, i + sep.len()) == sep
}

/// The pieces of `s`, scanning from `j`, where the current piece started at `start`.
/// Occurrences of `sep` are taken leftmost first and never overlap.
pub open spec fn pieces(s: Seq<char>, sep: Seq<char>, start: int, j: int) -> Seq<Seq<char>>
    decreases s.len() - j,
{
    if j >= s.len() {
        seq![s.subrange(start, s.len() as int)]
    } else if sep.len() > 0 && occurs_at(s, sep, j) {
        seq![s.subrange(start, j)] + pieces(s, sep, j + sep.len(), j + sep.len())
    } else {
        pieces(s, sep, start, j + 1)
    }
}

/// `s` cut at every occurrence of `sep`; there is always at least one piece.
pub open spec fn split(s: Seq<char>, sep: Seq<char>) -> Seq<Seq<char>> {
    pieces(s, sep, 0, 0)
}

pub fn occurs_at_exec(s: &Vec<char>, sep: &Vec<char>, i: usize) -> (r: bool)
    requires
        i <= s@.len(),
    ensures
        r == occurs_at(s@, sep@, i as int),
{
    if sep.len() > s.len() - i {
        return false;
    }
    let n: usize = s.len();
    let mut k: usize = 0;
    while k < sep.len()
        invariant
            n == s@.len(),
            k <= sep@.len(),
            i <= s@.len(),
            i + sep@.len() <= s@.len(),
            forall|m: int| 0 <= m < k ==> s@[i + m] == sep@[m],
        decreases sep@.len() - k,
    {
        assert(i + k < n);
        if s[i + k] != sep[k] {
            assert(s@.subrange(i as int, i + sep@.len())[k as int] != sep@[k as int]);
            return false;
        }
        k = k + 1;
    }
    assert(s@.subrange(i as int, i + sep@.len()) =~= sep@);
    true
}

/// The characters of `s` from `a` up to `b`.
pub fn slice(s: &Vec<char>, a: usize, b: usize) -> (r: Vec<char>)
    requires
        a <= b <= s@.len(),
    ensures
        r@ == s@.subrange(a as int, b as int),
{
    let mut r: Vec<char> = Vec::new();
    let mut i: usize = a;
    while i < b
        invariant
            a <= i <= b <= s@.len(),
            r@ == s@.subrange(a as int, i as int),
        decreases b - i,
    {
        r.push(s[i]);
        i = i + 1;
        assert(r@ =~= s@.subrange(a as int, i as int));
    }
    r
}

/// Cuts `s` at every occurrence of the non-empty separator `sep`.
pub fn split_on(s: &Vec<char>, sep: &Vec<char>) -> (r: Vec<Vec<char>>)
    requires
        sep@.len() > 0,
    ensures
        seqs_of(r@) == split(s@, sep@),
        r@.len() >= 1,
{
    let mut r: Vec<Vec<char>> = Vec::new();
    let mut start: usize = 0;
    let mut j: usize = 0;
    while j < s.len()
        invariant
            sep@.len() > 0,
            start <= j <= s@.len(),
            seqs_of(r@) + pieces(s@, sep@, start as int, j as int) == split(s@, sep@),
        decreases s@.len() - j,
    {
        if occurs_at_exec(s, sep, j) {
            let piece = slice(s, start, j);
            let ghost old_r = r@;
            r.push(piece);
            assert(seqs_of(r@) =~= seqs_of(old_r).push(piece@));
            assert(seqs_of(r@) + pieces(s@, sep@, (j + sep@.len()) as int, (j + sep@.len()) as int)
                =~= seqs_of(old_r) + pieces(s@, sep@, start as int, j as int));
            j = j + sep.len();
            start = j;
        } else {
            j = j + 1;
        }
    }
    let piece = slice(s, start, s.len());
    let ghost old_r = r@;
    r.push(piece);
    assert(seqs_of(r@) =~= seqs_of(old_r).push(piece@));
    assert(seqs_of(r@) =~= seqs_of(old_r) + pieces(s@, sep@, start as int, j as int));
    r
}

/// The items of `xs` with `c` between each two of them.
pub open spec fn joined(xs: Seq<Seq<char>>, c: char) -> Seq<char>
    decreases xs.len(),
{
    if xs.len() == 0 {
        Seq::empty()
    } else if xs.len() == 1 {
        xs[0]
    } else {
        joined(xs.drop_last(), c) + seq![c] + xs.last()
    }
}

/// Appends the characters of `s` to `out`.
pub fn push_all(out: &mut Vec<char>, s: &Vec<char>)
    ensures
        final(out)@ == old(out)@ + s@,
{
    let mut i: usize = 0;
    while i < s.len()
        invariant
            i <= s@.len(),
            out@ == old(out)@ + s@.take(i as int),
        decreases s@.len() - i,
    {
        out.push(s[i]);
        i = i + 1;
        assert(out@ =~= old(out)@ + s@.take(i as int));
    }
    assert(s@.take(s@.len() as int) =~= s@);
}

} // verus!
