//! Operations on text that the map formats need: splitting at a pattern,
//! removing a pattern, and trimming white space.
use vstd::prelude::*;

verus! {

/// Whether `c` has the Unicode `White_Space` property, which `str::trim`
/// goes by: tab, line feed, vertical tab, form feed, carriage return, space,
/// next line, no-break space, ogham space mark, the spaces U+2000 to U+200A,
/// line and paragraph separators, narrow no-break space, medium mathematical
/// space and ideographic space.
pub open spec fn white_space(c: char) -> bool {
    let n = c as u32;
    ||| 0x09 <= n <= 0x0D
    ||| n == 0x20
    ||| n == 0x85
    ||| n == 0xA0
    ||| n == 0x1680
    ||| 0x2000 <= n <= 0x200A
    ||| n == 0x2028
    ||| n == 0x2029
    ||| n == 0x202F
    ||| n == 0x205F
    ||| n == 0x3000
}

/// Whether `c` has the Unicode `White_Space` property.
fn is_whitespace(c: char) -> (b: bool)
    ensures
        b == white_space(c),
{
    let n = c as u32;
    (0x09 <= n && n <= 0x0D) || n == 0x20 || n == 0x85 || n == 0xA0 || n == 0x1680 || (0x2000
        <= n && n <= 0x200A) || n == 0x2028 || n == 0x2029 || n == 0x202F || n == 0x205F || n
        == 0x3000
}

/// `String::push`: appends `c`.
#[verifier::external_body]
fn push_char(s: &mut String, c: char)
    ensures
        final(s)@ == old(s)@.push(c),
{
    s.push(c)
}

/// The characters of `s`.
pub fn chars_of(s: &str) -> (v: Vec<char>)
    ensures
        v@ == s@,
{
    let mut v: Vec<char> = Vec::new();
    for c in it: s.chars()
        invariant
            v@ == it.seq().take(it.index() as int),
    {
        v.push(c);
    }
    v
}

/// The string of the characters `chars[from..to]`.
pub fn string_of(chars: &Vec<char>, from: usize, to: usize) -> (s: String)
    requires
        from <= to <= chars@.len(),
    ensures
        s@ == chars@.subrange(from as int, to as int),
{
    let mut s = String::new();
    let mut i = from;
    while i < to
        invariant
            from <= i <= to <= chars@.len(),
            s@ == chars@.subrange(from as int, i as int),
        decreases to - i,
    {
        push_char(&mut s, chars[i]);
        i = i + 1;
        assert(s@ =~= chars@.subrange(from as int, i as int));
    }
    s
}

/// `s` without the white space at its start.
pub open spec fn trim_start(s: Seq<char>) -> Seq<char>
    decreases s.len(),
{
    if s.len() > 0 && white_space(s[0]) {
        trim_start(s.drop_first())
    } else {
        s
    }
}

/// `s` without the white space at its end.
pub open spec fn trim_end(s: Seq<char>) -> Seq<char>
    decreases s.len(),
{
    if s.len() > 0 && white_space(s.last()) {
        trim_end(s.drop_last())
    } else {
        s
    }
}

/// `s` without white space at either end.
pub open spec fn trim(s: Seq<char>) -> Seq<char> {
    trim_end(trim_start(s))
}

proof fn lemma_trim_start_from(s: Seq<char>, i: int)
    requires
        0 <= i <= s.len(),
        forall|k: int| 0 <= k < i ==> white_space(#[trigger] s[k]),
    ensures
        trim_start(s) == trim_start(s.subrange(i, s.len() as int)),
    decreases i,
{
    if i > 0 {
        assert(s.drop_first() =~= s.subrange(1, s.len() as int));
        lemma_trim_start_from(s.drop_first(), i - 1);
        assert(s.drop_first().subrange(i - 1, s.drop_first().len() as int) =~= s.subrange(
            i,
            s.len() as int,
        ));
    } else {
        assert(s.subrange(0, s.len() as int) =~= s);
    }
}

proof fn lemma_trim_end_to(s: Seq<char>, j: int)
    requires
        0 <= j <= s.len(),
        forall|k: int| j <= k < s.len() ==> white_space(#[trigger] s[k]),
    ensures
        trim_end(s) == trim_end(s.subrange(0, j)),
    decreases s.len() - j,
{
    if j < s.len() {
        assert(s.drop_last() =~= s.subrange(0, s.len() - 1));
        lemma_trim_end_to(s.drop_last(), j);
        assert(s.drop_last().subrange(0, j) =~= s.subrange(0, j));
    } else {
        assert(s.subrange(0, j) =~= s);
    }
}

/// `s` without white space at either end, as `str::trim` gives it.
pub fn trim_text(s: &str) -> (t: String)
    ensures
        t@ == trim(s@),
{
    let chars = chars_of(s);
    let n = chars.len();
    let mut i: usize = 0;
    while i < n && is_whitespace(chars[i])
        invariant
            i <= n == chars@.len(),
            forall|k: int| 0 <= k < i ==> white_space(#[trigger] chars@[k]),
        decreases n - i,
    {
        i = i + 1;
    }
    let mut j: usize = n;
    while j > i && is_whitespace(chars[j - 1])
        invariant
            i <= j <= n == chars@.len(),
            forall|k: int| j <= k < n ==> white_space(#[trigger] chars@[k]),
        decreases j - i,
    {
        j = j - 1;
    }
    proof {
        lemma_trim_start_from(chars@, i as int);
        let rest = chars@.subrange(i as int, n as int);
        assert(trim_start(rest) == rest);
        assert forall|k: int| j - i <= k < rest.len() implies white_space(#[trigger] rest[k]) by {
            assert(rest[k] == chars@[k + i]);
        }
        lemma_trim_end_to(rest, j - i);
        assert(rest.subrange(0, j - i) =~= chars@.subrange(i as int, j as int));
    }
    string_of(&chars, i, j)
}

/// The first index at or after `from` where `pat` occurs in `s`.
pub open spec fn find_from(s: Seq<char>, pat: Seq<char>, from: int) -> Option<int>
    decreases s.len() - from,
{
    if pat.len() == 0 || from < 0 || from + pat.len() > s.len() {
        None
    } else if s.subrange(from, from + pat.len()) == pat {
        Some(from)
    } else {
        find_from(s, pat, from + 1)
    }
}

pub proof fn lemma_find_bounds(s: Seq<char>, pat: Seq<char>, from: int)
    ensures
        find_from(s, pat, from) matches Some(i) ==> from <= i && i + pat.len() <= s.len()
            && pat.len() > 0,
    decreases s.len() - from,
{
    if !(pat.len() == 0 || from < 0 || from + pat.len() > s.len()) && s.subrange(
        from,
        from + pat.len(),
    ) != pat {
        lemma_find_bounds(s, pat, from + 1);
    }
}

/// The pieces of `s[start..]` between the occurrences of `pat`, found from
/// left to right without overlap, as `str::split` gives them.
pub open spec fn split_from(s: Seq<char>, pat: Seq<char>, start: int) -> Seq<Seq<char>>
    decreases s.len() - start,
{
    match find_from(s, pat, start) {
        None => seq![s.subrange(start, s.len() as int)],
        Some(i) => {
            proof {
                lemma_find_bounds(s, pat, start);
            }
            seq![s.subrange(start, i)] + split_from(s, pat, i + pat.len())
        },
    }
}

/// The pieces of `s` between the occurrences of `pat`.
pub open spec fn split_on(s: Seq<char>, pat: Seq<char>) -> Seq<Seq<char>> {
    split_from(s, pat, 0)
}

/// The pieces of `s` between the occurrences of `pat`, as strings.
pub fn split_text(s: &Vec<char>, pat: &Vec<char>) -> (pieces: Vec<String>)
    requires
        pat@.len() > 0,
    ensures
        crate::map::texts(pieces@) == split_on(s@, pat@),
{
    let n = s.len();
    let m = pat.len();
    let mut pieces: Vec<String> = Vec::new();
    let mut start: usize = 0;
    let mut j: usize = 0;
    loop
        invariant
            n == s@.len(),
            m == pat@.len() > 0,
            start <= j <= n,
            split_on(s@, pat@) == crate::map::texts(pieces@) + split_from(s@, pat@, start as int),
            find_from(s@, pat@, start as int) == find_from(s@, pat@, j as int),
        decreases n - j, n - start,
    {
        if m > n - j {
            let last = string_of(s, start, n);
            proof {
                assert(crate::map::texts(pieces@.push(last)) =~= crate::map::texts(pieces@).push(
                    last@,
                ));
            }
            pieces.push(last);
            return pieces;
        }
        if matches_at(s, pat, j) {
            let piece = string_of(s, start, j);
            proof {
                lemma_find_bounds(s@, pat@, start as int);
                assert(crate::map::texts(pieces@.push(piece)) =~= crate::map::texts(pieces@).push(
                    piece@,
                ));
                assert(split_from(s@, pat@, start as int) == seq![piece@] + split_from(
                    s@,
                    pat@,
                    (j + m) as int,
                ));
                assert(crate::map::texts(pieces@) + (seq![piece@] + split_from(
                    s@,
                    pat@,
                    (j + m) as int,
                )) =~= crate::map::texts(pieces@).push(piece@) + split_from(
                    s@,
                    pat@,
                    (j + m) as int,
                ));
            }
            pieces.push(piece);
            start = j + m;
            j = start;
        } else {
            j = j + 1;
        }
    }
}

/// Whether `pat` occurs in `s` at `j`.
fn matches_at(s: &Vec<char>, pat: &Vec<char>, j: usize) -> (b: bool)
    requires
        j + pat@.len() <= s@.len(),
    ensures
        b == (s@.subrange(j as int, j + pat@.len()) == pat@),
{
    let m = pat.len();
    let mut k: usize = 0;
    while k < m
        invariant
            m == pat@.len(),
            j + m <= s@.len(),
            s@.len() == s.len(),
            k <= m,
            forall|t: int| 0 <= t < k ==> s@[j + t] == pat@[t],
        decreases m - k,
    {
        if s[j + k] != pat[k] {
            assert(s@.subrange(j as int, j + m)[k as int] != pat@[k as int]);
            return false;
        }
        k = k + 1;
    }
    assert(s@.subrange(j as int, j + m) =~= pat@);
    true
}

/// `s` with every occurrence of `pat` removed, found from left to right
/// without overlap.
pub open spec fn remove_all(s: Seq<char>, pat: Seq<char>) -> Seq<char> {
    split_on(s, pat).flatten()
}

/// The concatenation of `pieces`.
pub fn concat_texts(pieces: &Vec<String>) -> (s: String)
    ensures
        s@ == crate::map::texts(pieces@).flatten(),
{
    let mut s = String::new();
    let n = pieces.len();
    let mut i: usize = 0;
    proof {
        assert(crate::map::texts(pieces@.take(0)) =~= Seq::<Seq<char>>::empty());
    }
    while i < n
        invariant
            n == pieces@.len(),
            i <= n,
            s@ == crate::map::texts(pieces@.take(i as int)).flatten(),
        decreases n - i,
    {
        s.append(pieces[i].as_str());
        proof {
            let before = crate::map::texts(pieces@.take(i as int));
            assert(crate::map::texts(pieces@.take(i + 1)) =~= before.push(pieces@[i as int]@));
            before.lemma_flatten_push(pieces@[i as int]@);
        }
        i = i + 1;
    }
    proof {
        assert(pieces@.take(n as int) =~= pieces@);
    }
    s
}

/// `s` with every occurrence of `pat` removed.
pub fn remove_text(s: &str, pat: &Vec<char>) -> (t: String)
    requires
        pat@.len() > 0,
    ensures
        t@ == remove_all(s@, pat@),
{
    let chars = chars_of(s);
    let pieces = split_text(&chars, pat);
    concat_texts(&pieces)
}

/// Every piece of a split holds at least one piece.
pub proof fn lemma_split_nonempty(s: Seq<char>, pat: Seq<char>, start: int)
    ensures
        split_from(s, pat, start).len() >= 1,
{
}

} // verus!
