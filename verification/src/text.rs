use vstd::prelude::*;
use vstd::string::StringExecFns;

verus! {

/// The views of a sequence of strings.
pub open spec fn texts(parts: Seq<String>) -> Seq<Seq<char>> {
    parts.map_values(|s: String| s@)
}

/// The index of the first `c` in `s`, or the length of `s` where `c` does
/// not occur.
pub open spec fn first_index_of(s: Seq<char>, c: char) -> int
    decreases s.len(),
{
    if s.len() == 0 || s[0] == c {
        0
    } else {
        1 + first_index_of(s.drop_first(), c)
    }
}

/// Whether `token` stands in `s` at index `i`.
pub open spec fn occurs_at(s: Seq<char>, i: int, token: Seq<char>) -> bool {
    0 <= i && i + token.len() <= s.len() && s.subrange(i, i + token.len()) == token
}

/// `s` with every occurrence of `from` replaced by `to`. Occurrences are
/// taken from left to right and do not overlap; what has been put in is not
/// searched again. An empty `from` occurs nowhere.
pub open spec fn replaced(s: Seq<char>, from: Seq<char>, to: Seq<char>) -> Seq<char>
    decreases s.len(),
{
    if s.len() == 0 {
        s
    } else if from.len() > 0 && occurs_at(s, 0, from) {
        to + replaced(s.skip(from.len() as int), from, to)
    } else {
        seq![s[0]] + replaced(s.skip(1), from, to)
    }
}

/// The parts in order, with `sep` between each two neighbours.
pub open spec fn joined(parts: Seq<Seq<char>>, sep: Seq<char>) -> Seq<char>
    decreases parts.len(),
{
    if parts.len() == 0 {
        Seq::empty()
    } else if parts.len() == 1 {
        parts[0]
    } else {
        joined(parts.drop_last(), sep) + sep + parts.last()
    }
}

/// `first_index_of` is the one index before which `c` does not occur and
/// at which, unless it is the length, `c` stands.
pub proof fn lemma_first_index_of(s: Seq<char>, c: char, p: int)
    requires
        0 <= p <= s.len(),
        forall|j: int| 0 <= j < p ==> s[j] != c,
        p < s.len() ==> s[p] == c,
    ensures
        first_index_of(s, c) == p,
    decreases s.len(),
{
    if s.len() == 0 || s[0] == c {
    } else {
        lemma_first_index_of(s.drop_first(), c, p - 1);
    }
}

/// `first_index_of` lies within the sequence or at its end.
pub proof fn lemma_first_index_of_bounds(s: Seq<char>, c: char)
    ensures
        0 <= first_index_of(s, c) <= s.len(),
    decreases s.len(),
{
    if s.len() == 0 || s[0] == c {
    } else {
        lemma_first_index_of_bounds(s.drop_first(), c);
    }
}

/// Where `first_index_of` lies within the sequence, `c` stands there.
pub proof fn lemma_first_index_of_stands(s: Seq<char>, c: char)
    ensures
        first_index_of(s, c) < s.len() ==> s[first_index_of(s, c)] == c,
    decreases s.len(),
{
    if s.len() == 0 || s[0] == c {
    } else {
        lemma_first_index_of_stands(s.drop_first(), c);
        lemma_first_index_of_bounds(s.drop_first(), c);
    }
}

/// The characters of `s`, in order.
pub fn chars_of(s: &str) -> (chars: Vec<char>)
    ensures
        chars@ == s@,
{
    let mut chars: Vec<char> = Vec::new();
    for c in it: s.chars()
        invariant
            it.seq() == s@,
            chars@ == s@.take(it.index()),
    {
        chars.push(c);
    }
    chars
}

/// Appends one character to a string, by `String::push`: the string's
/// characters afterwards are those before, followed by `c`.
#[verifier::external_body]
pub(crate) fn push_char(s: &mut String, c: char)
    ensures
        final(s)@ == old(s)@.push(c),
{
    s.push(c);
}

/// The string made of the characters of `chars` from index `from` up to,
/// not including, index `to`.
pub fn text_of_range(chars: &Vec<char>, from: usize, to: usize) -> (s: String)
    requires
        from <= to <= chars.len(),
    ensures
        s@ == chars@.subrange(from as int, to as int),
{
    let mut s = String::new();
    let mut i: usize = from;
    while i < to
        invariant
            from <= i <= to <= chars.len(),
            s@ == chars@.subrange(from as int, i as int),
        decreases to - i,
    {
        push_char(&mut s, chars[i]);
        i += 1;
    }
    s
}

/// The string made of `chars`, in order.
pub fn text_of(chars: &Vec<char>) -> (s: String)
    ensures
        s@ == chars@,
{
    text_of_range(chars, 0, chars.len())
}

/// The index of the first `c` in `chars` at or after `start`, or the length
/// of `chars` where there is none.
pub fn find_from(chars: &Vec<char>, start: usize, c: char) -> (p: usize)
    requires
        start <= chars.len(),
    ensures
        start <= p <= chars.len(),
        p == start + first_index_of(chars@.skip(start as int), c),
{
    let mut p: usize = start;
    while p < chars.len() && chars[p] != c
        invariant
            start <= p <= chars.len(),
            forall|j: int| start <= j < p ==> chars@[j] != c,
        decreases chars.len() - p,
    {
        p += 1;
    }
    proof {
        lemma_first_index_of(chars@.skip(start as int), c, p - start);
    }
    p
}

/// Whether `token` stands in `text` at index `i`.
pub fn stands_at(text: &Vec<char>, i: usize, token: &Vec<char>) -> (found: bool)
    ensures
        found == occurs_at(text@, i as int, token@),
{
    if i > text.len() || token.len() > text.len() - i {
        return false;
    }
    let mut j: usize = 0;
    while j < token.len()
        invariant
            j <= token.len(),
            i + token.len() <= text.len(),
            forall|k: int| 0 <= k < j ==> text@[i + k] == token@[k],
        decreases token.len() - j,
    {
        if text[i + j] != token[j] {
            return false;
        }
        j += 1;
    }
    assert(text@.subrange(i as int, i + token.len()) =~= token@);
    true
}

/// `text` with every occurrence of `from` replaced by `to`.
pub fn replace_all(text: &Vec<char>, from: &Vec<char>, to: &Vec<char>) -> (out: Vec<char>)
    ensures
        out@ == replaced(text@, from@, to@),
{
    let mut out: Vec<char> = Vec::new();
    let mut i: usize = 0;
    assert(text@.skip(0) =~= text@);
    while i < text.len()
        invariant
            i <= text.len(),
            out@ + replaced(text@.skip(i as int), from@, to@) == replaced(text@, from@, to@),
        decreases text.len() - i,
    {
        let ghost rest = text@.skip(i as int);
        let ghost before = out@;
        assert(occurs_at(rest, 0, from@) == occurs_at(text@, i as int, from@)) by {
            if i + from@.len() <= text@.len() {
                assert(rest.subrange(0, from@.len() as int) =~= text@.subrange(
                    i as int,
                    i + from@.len(),
                ));
            }
        }
        if from.len() > 0 && stands_at(text, i, from) {
            let mut k: usize = 0;
            while k < to.len()
                invariant
                    k <= to.len(),
                    out@ == before + to@.take(k as int),
                decreases to.len() - k,
            {
                out.push(to[k]);
                k += 1;
            }
            i += from.len();
            assert(rest.skip(from@.len() as int) =~= text@.skip(i as int));
        } else {
            out.push(text[i]);
            i += 1;
            assert(rest.skip(1) =~= text@.skip(i as int));
        }
    }
    out
}

/// The strings of `parts` from index `from` up to, not including, index
/// `to`, with `sep` between each two neighbours.
pub fn join_range(parts: &Vec<String>, from: usize, to: usize, sep: &str) -> (out: String)
    requires
        from <= to <= parts.len(),
    ensures
        out@ == joined(texts(parts@).subrange(from as int, to as int), sep@),
{
    let mut out = String::new();
    let mut i: usize = from;
    while i < to
        invariant
            from <= i <= to <= parts.len(),
            out@ == joined(texts(parts@).subrange(from as int, i as int), sep@),
        decreases to - i,
    {
        let ghost done = texts(parts@).subrange(from as int, i as int);
        let ghost next = texts(parts@).subrange(from as int, i + 1);
        assert(next.drop_last() =~= done);
        if i > from {
            out.append(sep);
        }
        out.append(parts[i].as_str());
        i += 1;
    }
    out
}

/// The strings of `parts` with `sep` between each two neighbours.
pub fn join_texts(parts: &Vec<String>, sep: &str) -> (out: String)
    ensures
        out@ == joined(texts(parts@), sep@),
{
    assert(texts(parts@).subrange(0, parts.len() as int) =~= texts(parts@));
    join_range(parts, 0, parts.len(), sep)
}

} // verus!
