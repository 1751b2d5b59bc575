use vstd::prelude::*;

verus! {

/// `pat` occurs in `s` starting at index `i`.
pub open spec fn occurs_at(s: Seq<char>, pat: Seq<char>, i: int) -> bool {
    &&& 0 <= i
    &&& i + pat.len() <= s.len()
    &&& s.subrange(i, i + pat.len()) == pat
}

/// `i` is the leftmost index at which `pat` occurs in `s`.
pub open spec fn is_first_occurrence(s: Seq<char>, pat: Seq<char>, i: int) -> bool {
    &&& occurs_at(s, pat, i)
    &&& forall|j: int| 0 <= j < i ==> !occurs_at(s, pat, j)
}

/// What `str::split_once` gives: the text before the leftmost occurrence of
/// `pat` and the text after it, or nothing when `pat` does not occur.
pub open spec fn split_once_spec(s: Seq<char>, pat: Seq<char>) -> Option<(Seq<char>, Seq<char>)> {
    if exists|i: int| is_first_occurrence(s, pat, i) {
        let i = choose|i: int| is_first_occurrence(s, pat, i);
        Some((s.take(i), s.skip(i + pat.len())))
    } else {
        None
    }
}

/// There is at most one leftmost occurrence.
pub proof fn lemma_first_occurrence_unique(s: Seq<char>, pat: Seq<char>, i: int, k: int)
    requires
        is_first_occurrence(s, pat, i),
        is_first_occurrence(s, pat, k),
    ensures
        i == k,
{
    if i < k {
        assert(!occurs_at(s, pat, i));
    } else if k < i {
        assert(!occurs_at(s, pat, k));
    }
}

/// Once the leftmost occurrence is known, `split_once_spec` cuts there.
pub proof fn lemma_split_at_first_occurrence(s: Seq<char>, pat: Seq<char>, i: int)
    requires
        is_first_occurrence(s, pat, i),
    ensures
        split_once_spec(s, pat) == Some((s.take(i), s.skip(i + pat.len()))),
{
    let k = choose|k: int| is_first_occurrence(s, pat, k);
    lemma_first_occurrence_unique(s, pat, i, k);
}

/// Wherever `pat` occurs, a leftmost occurrence exists, at or before it.
pub proof fn lemma_first_of_some_occurrence(s: Seq<char>, pat: Seq<char>, k: int)
    requires
        occurs_at(s, pat, k),
    ensures
        exists|i: int| 0 <= i <= k && is_first_occurrence(s, pat, i),
    decreases k,
{
    if exists|j: int| 0 <= j < k && occurs_at(s, pat, j) {
        let j = choose|j: int| 0 <= j < k && occurs_at(s, pat, j);
        lemma_first_of_some_occurrence(s, pat, j);
    } else {
        assert(is_first_occurrence(s, pat, k));
    }
}

/// A text that starts with `pat` splits at its start.
pub proof fn lemma_split_at_prefix(pat: Seq<char>, rest: Seq<char>)
    ensures
        split_once_spec(pat + rest, pat) == Some((Seq::<char>::empty(), rest)),
{
    let s = pat + rest;
    assert(s.subrange(0, pat.len() as int) =~= pat);
    assert(is_first_occurrence(s, pat, 0));
    lemma_split_at_first_occurrence(s, pat, 0);
    assert(s.take(0) =~= Seq::<char>::empty());
    assert(s.skip(pat.len() as int) =~= rest);
}

/// A line terminated by "\r\n" loses its carriage return too.
pub open spec fn strip_cr(l: Seq<char>) -> Seq<char> {
    if l.len() > 0 && l.last() == '\r' {
        l.drop_last()
    } else {
        l
    }
}

/// The lines of a text as `str::lines` yields them: the text is cut at each
/// '\n'; a '\r' right before a '\n' is dropped; a final line terminator is
/// optional and an empty text has no lines.
pub open spec fn lines_of(s: Seq<char>) -> Seq<Seq<char>>
    decreases s.len(),
{
    if s.len() == 0 {
        Seq::empty()
    } else if exists|i: int| is_first_occurrence(s, seq!['\n'], i) {
        let i = choose|i: int| is_first_occurrence(s, seq!['\n'], i);
        seq![strip_cr(s.take(i))] + lines_of(s.skip(i + 1))
    } else {
        seq![s]
    }
}

/// The views of a sequence of strings.
pub open spec fn views(v: Seq<String>) -> Seq<Seq<char>> {
    v.map_values(|x: String| x@)
}

/// A one-character pattern occurs exactly where that character stands.
pub proof fn lemma_occurs_single(s: Seq<char>, c: char, j: int)
    ensures
        occurs_at(s, seq![c], j) <==> (0 <= j < s.len() && s[j] == c),
{
    if 0 <= j < s.len() {
        if s[j] == c {
            assert(s.subrange(j, j + 1) =~= seq![c]);
        } else {
            assert(s.subrange(j, j + 1)[0] != seq![c][0]);
        }
    }
}

/// The leftmost occurrence of a single character.
pub proof fn lemma_first_single(s: Seq<char>, c: char, i: int)
    requires
        0 <= i < s.len(),
        s[i] == c,
        forall|j: int| 0 <= j < i ==> s[j] != c,
    ensures
        is_first_occurrence(s, seq![c], i),
{
    lemma_occurs_single(s, c, i);
    assert forall|j: int| 0 <= j < i implies !occurs_at(s, seq![c], j) by {
        lemma_occurs_single(s, c, j);
    }
}

/// A text without any '\n' is a single line (or none when empty).
pub proof fn lemma_lines_of_no_newline(s: Seq<char>)
    requires
        forall|j: int| 0 <= j < s.len() ==> s[j] != '\n',
    ensures
        lines_of(s) == (if s.len() == 0 { Seq::<Seq<char>>::empty() } else { seq![s] }),
{
    if s.len() > 0 {
        assert forall|i: int| !is_first_occurrence(s, seq!['\n'], i) by {
            lemma_occurs_single(s, '\n', i);
        }
    }
}

/// Unfolds `lines_of` at its first line terminator.
pub proof fn lemma_lines_of_step(s: Seq<char>, i: int)
    requires
        0 <= i < s.len(),
        s[i] == '\n',
        forall|j: int| 0 <= j < i ==> s[j] != '\n',
    ensures
        lines_of(s) == seq![strip_cr(s.take(i))] + lines_of(s.skip(i + 1)),
{
    lemma_first_single(s, '\n', i);
    let k = choose|k: int| is_first_occurrence(s, seq!['\n'], k);
    lemma_first_occurrence_unique(s, seq!['\n'], i, k);
}

/// Collects the characters of `s` into a vector.
pub fn chars_of(s: &str) -> (v: Vec<char>)
    ensures
        v@ == s@,
{
    let mut v: Vec<char> = Vec::new();
    for c in it: s.chars()
        invariant
            it.seq() == s@,
            v@ == it.seq().take(it.index() as int),
    {
        v.push(c);
    }
    v
}

/// Whether `pat` occurs in `s` at index `i`.
pub fn occurs_at_index(s: &Vec<char>, pat: &Vec<char>, i: usize) -> (b: bool)
    ensures
        b == occurs_at(s@, pat@, i as int),
{
    if i > s.len() || pat.len() > s.len() - i {
        return false;
    }
    let mut k: usize = 0;
    while k < pat.len()
        invariant
            i + pat.len() <= s.len(),
            k <= pat.len(),
            forall|j: int| 0 <= j < k ==> s@[i + j] == pat@[j],
        decreases pat.len() - k,
    {
        if s[i + k] != pat[k] {
            assert(s@.subrange(i as int, i + pat.len())[k as int] != pat@[k as int]);
            return false;
        }
        k += 1;
    }
    assert(s@.subrange(i as int, i + pat.len()) =~= pat@);
    true
}

/// The leftmost index at which `pat` occurs in `s`, if any.
pub fn find_first(s: &Vec<char>, pat: &Vec<char>) -> (r: Option<usize>)
    ensures
        match r {
            Some(i) => is_first_occurrence(s@, pat@, i as int),
            None => forall|j: int| !occurs_at(s@, pat@, j),
        },
{
    let mut i: usize = 0;
    loop
        invariant
            i <= s.len(),
            forall|j: int| 0 <= j < i ==> !occurs_at(s@, pat@, j),
        decreases s.len() - i,
    {
        if occurs_at_index(s, pat, i) {
            return Some(i);
        }
        if i == s.len() {
            assert forall|j: int| !occurs_at(s@, pat@, j) by {
                if 0 <= j && j < i {
                }
            }
            return None;
        }
        i += 1;
    }
}

/// The text before and after the leftmost occurrence of `pat` in `s`
/// (what `str::split_once` returns).
pub fn split_once<'a>(s: &'a str, pat: &str) -> (r: Option<(&'a str, &'a str)>)
    ensures
        match r {
            Some((before, after)) => split_once_spec(s@, pat@) == Some((before@, after@)),
            None => split_once_spec(s@, pat@) is None,
        },
{
    let sv = chars_of(s);
    let pv = chars_of(pat);
    match find_first(&sv, &pv) {
        Some(i) => {
            let pat_len = pv.len();
            let total = sv.len();
            assert(i + pat_len <= total);
            let end = i + pat_len;
            proof {
                lemma_split_at_first_occurrence(s@, pat@, i as int);
            }
            let before = s.substring_char(0, i);
            let after = s.substring_char(end, total);
            assert(before@ =~= s@.take(i as int));
            assert(after@ =~= s@.skip(i + pat@.len()));
            Some((before, after))
        },
        None => None,
    }
}

/// Splits a text into its lines, as `str::lines` does.
pub fn split_lines(s: &str) -> (v: Vec<String>)
    ensures
        views(v@) == lines_of(s@),
{
    let sv = chars_of(s);
    let n = sv.len();
    let mut out: Vec<String> = Vec::new();
    let mut start: usize = 0;
    let mut i: usize = 0;
    assert(s@.skip(0) =~= s@);
    assert(views(out@) + lines_of(s@) =~= lines_of(s@));
    while i < n
        invariant
            n == sv@.len(),
            sv@ == s@,
            start <= i <= n,
            forall|j: int| start <= j < i ==> sv@[j] != '\n',
            lines_of(s@) == views(out@) + lines_of(s@.skip(start as int)),
        decreases n - i,
    {
        if sv[i] == '\n' {
            let end = if i > start && sv[i - 1] == '\r' {
                i - 1
            } else {
                i
            };
            let line = s.substring_char(start, end).to_owned();
            proof {
                let t = s@.skip(start as int);
                lemma_lines_of_step(t, i - start);
                assert(t.skip(i - start + 1) =~= s@.skip(i + 1));
                assert(strip_cr(t.take(i - start)) =~= line@);
                assert(views(out@.push(line)) =~= views(out@) + seq![line@]);
            }
            out.push(line);
            start = i + 1;
        }
        i += 1;
    }
    proof {
        lemma_lines_of_no_newline(s@.skip(start as int));
    }
    if start < n {
        let line = s.substring_char(start, n).to_owned();
        proof {
            assert(line@ =~= s@.skip(start as int));
            assert(views(out@.push(line)) =~= views(out@) + seq![line@]);
        }
        out.push(line);
    } else {
        assert(views(out@) + Seq::<Seq<char>>::empty() =~= views(out@));
    }
    out
}

/// Whether two texts are equal.
pub fn same_text(a: &str, b: &str) -> (r: bool)
    ensures
        r == (a@ == b@),
{
    let a_owned = a.to_owned();
    let b_owned = b.to_owned();
    a_owned == b_owned
}

} // verus!
