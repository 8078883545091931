//! Plain text helpers: finding a character, splitting at a separator and
//! comparing strings, with their models over sequences of characters.
use vstd::prelude::*;

verus! {

/// The line cut at the first occurrence of `sep`: the part before it, and
/// the part after it when `sep` occurs at all.
pub open spec fn split_once(s: Seq<char>, sep: char) -> (Seq<char>, Option<Seq<char>>) {
    match s.index_of_first(sep) {
        Some(i) => (s.take(i), Some(s.skip(i + 1))),
        None => (s, None),
    }
}

/// The pieces of `s` between the occurrences of `sep`, in order; two
/// separators in a row give an empty piece, and there is always at least
/// one piece.
pub open spec fn split_all(s: Seq<char>, sep: char) -> Seq<Seq<char>>
    decreases s.len(),
{
    match s.index_of_first(sep) {
        Some(i) => {
            proof {
                s.index_of_first_ensures(sep);
            }
            seq![s.take(i)] + split_all(s.skip(i + 1), sep)
        },
        None => seq![s],
    }
}

/// Index, in characters, of the first occurrence of `c` in `s`.
pub fn find_char(s: &str, c: char) -> (r: Option<usize>)
    ensures
        match r {
            Some(i) => s@.index_of_first(c) == Some(i as int),
            None => s@.index_of_first(c) is None,
        },
{
    let n = s.unicode_len();
    let mut i: usize = 0;
    while i < n
        invariant
            n == s@.len(),
            i <= n,
            forall|j: int| 0 <= j < i ==> s@[j] != c,
        decreases n - i,
    {
        if s.get_char(i) == c {
            proof {
                s@.index_of_first_ensures(c);
            }
            return Some(i);
        }
        i += 1;
    }
    proof {
        s@.index_of_first_ensures(c);
    }
    None
}

/// Cuts `s` at the first occurrence of `sep`.
pub fn split_once_at<'a>(s: &'a str, sep: char) -> (r: (&'a str, Option<&'a str>))
    ensures
        r.0@ == split_once(s@, sep).0,
        match r.1 {
            Some(t) => split_once(s@, sep).1 == Some(t@),
            None => split_once(s@, sep).1 is None,
        },
{
    proof {
        s@.index_of_first_ensures(sep);
    }
    let n = s.unicode_len();
    match find_char(s, sep) {
        Some(i) => {
            let head = s.substring_char(0, i);
            let tail = s.substring_char(i + 1, n);
            proof {
                assert(head@ =~= s@.take(i as int));
                assert(tail@ =~= s@.skip(i + 1));
            }
            (head, Some(tail))
        },
        None => (s, None),
    }
}

/// The views of a list of strings.
pub open spec fn views(v: Seq<String>) -> Seq<Seq<char>> {
    v.map_values(|t: String| t@)
}

/// Splits `s` at every occurrence of `sep`, as `str::split` does with a
/// single character.
pub fn split_all_at(s: &str, sep: char) -> (r: Vec<String>)
    ensures
        views(r@) == split_all(s@, sep),
{
    let mut out: Vec<String> = Vec::new();
    let mut rest: &str = s;
    loop
        invariant
            views(out@) + split_all(rest@, sep) == split_all(s@, sep),
        decreases rest@.len(),
    {
        let ghost before = rest@;
        let (head, tail) = split_once_at(rest, sep);
        proof {
            before.index_of_first_ensures(sep);
        }
        match tail {
            Some(t) => {
                let ghost old_out = out@;
                out.push(head.to_owned());
                proof {
                    assert(views(out@) =~= views(old_out).push(head@));
                    assert(split_all(before, sep) == seq![head@] + split_all(t@, sep));
                    assert(views(out@) + split_all(t@, sep) =~= views(old_out) + split_all(before, sep));
                }
                rest = t;
            },
            None => {
                let ghost old_out = out@;
                out.push(head.to_owned());
                proof {
                    assert(views(out@) =~= views(old_out).push(head@));
                    assert(split_all(before, sep) == seq![before]);
                    assert(views(out@) =~= views(old_out) + split_all(before, sep));
                }
                return out;
            },
        }
    }
}

/// Whether two strings hold the same characters.
pub fn same_text(a: &str, b: &str) -> (r: bool)
    ensures
        r == (a@ == b@),
{
    let n = a.unicode_len();
    let m = b.unicode_len();
    if n != m {
        return false;
    }
    let mut i: usize = 0;
    while i < n
        invariant
            n == a@.len(),
            m == b@.len(),
            n == m,
            i <= n,
            forall|j: int| 0 <= j < i ==> a@[j] == b@[j],
        decreases n - i,
    {
        if a.get_char(i) != b.get_char(i) {
            return false;
        }
        i += 1;
    }
    proof {
        assert(a@ =~= b@);
    }
    true
}

/// The pieces joined back, with `sep` between each two.
pub open spec fn join_with(pieces: Seq<Seq<char>>, sep: char) -> Seq<char>
    decreases pieces.len(),
{
    if pieces.len() <= 1 {
        if pieces.len() == 1 {
            pieces[0]
        } else {
            Seq::empty()
        }
    } else {
        pieces[0] + seq![sep] + join_with(pieces.drop_first(), sep)
    }
}

/// Law: splitting gives at least one piece, no piece holds the separator,
/// and joining the pieces with the separator gives back the text.
pub proof fn lemma_split_all_pieces(s: Seq<char>, sep: char)
    ensures
        split_all(s, sep).len() >= 1,
        forall|i: int|
            0 <= i < split_all(s, sep).len() ==> !(#[trigger] split_all(s, sep)[i]).contains(sep),
        join_with(split_all(s, sep), sep) == s,
    decreases s.len(),
{
    s.index_of_first_ensures(sep);
    match s.index_of_first(sep) {
        Some(i) => {
            let head = s.take(i);
            let tail = s.skip(i + 1);
            lemma_split_all_pieces(tail, sep);
            let p = split_all(s, sep);
            assert(p == seq![head] + split_all(tail, sep));
            assert(!head.contains(sep)) by {
                assert forall|j: int| 0 <= j < head.len() implies head[j] != sep by {
                    assert(head[j] == s[j]);
                }
            }
            assert forall|k: int| 0 <= k < p.len() implies !(#[trigger] p[k]).contains(sep) by {
                if k > 0 {
                    assert(p[k] == split_all(tail, sep)[k - 1]);
                }
            }
            assert(p.drop_first() =~= split_all(tail, sep));
            assert(join_with(p, sep) == head + seq![sep] + join_with(split_all(tail, sep), sep));
            assert(head + seq![sep] + tail =~= s);
        },
        None => {
            assert(split_all(s, sep) == seq![s]);
        },
    }
}

} // verus!
