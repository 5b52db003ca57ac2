use vstd::prelude::*;

verus! {

broadcast use vstd::string::group_string_axioms;

/// The characters with the Unicode `White_Space` property, which `char::is_whitespace`,
/// `str::trim` and `str::split_whitespace` go by.
pub open spec fn is_white_space(c: char) -> bool {
    let x = c as u32;
    ||| 0x09 <= x <= 0x0d
    ||| x == 0x20
    ||| x == 0x85
    ||| x == 0xa0
    ||| x == 0x1680
    ||| 0x2000 <= x <= 0x200a
    ||| x == 0x2028
    ||| x == 0x2029
    ||| x == 0x202f
    ||| x == 0x205f
    ||| x == 0x3000
}

/// Whether `c` is white space.
pub fn white_space(c: char) -> (r: bool)
    ensures
        r == is_white_space(c),
{
    let x = c as u32;
    (0x09 <= x && x <= 0x0d) || x == 0x20 || x == 0x85 || x == 0xa0 || x == 0x1680 || (0x2000
        <= x && x <= 0x200a) || x == 0x2028 || x == 0x2029 || x == 0x202f || x == 0x205f || x
        == 0x3000
}

/// The pieces of `s` between the occurrences of `sep`, as `str::split` gives
/// them: one more piece than there are separators, empty ones included.
pub open spec fn split_on(s: Seq<char>, sep: char) -> Seq<Seq<char>>
    decreases s.len(),
{
    if s.len() == 0 {
        seq![Seq::empty()]
    } else {
        let p = split_on(s.drop_last(), sep);
        if s.last() == sep {
            p.push(Seq::empty())
        } else {
            p.update(p.len() - 1, p.last().push(s.last()))
        }
    }
}

/// There is always at least one piece.
pub proof fn lemma_split_on_len(s: Seq<char>, sep: char)
    ensures
        split_on(s, sep).len() >= 1,
    decreases s.len(),
{
    if s.len() > 0 {
        lemma_split_on_len(s.drop_last(), sep);
    }
}

/// `s` without its leading white space.
pub open spec fn trim_start(s: Seq<char>) -> Seq<char>
    decreases s.len(),
{
    if s.len() > 0 && is_white_space(s[0]) {
        trim_start(s.drop_first())
    } else {
        s
    }
}

/// `s` without its trailing white space.
pub open spec fn trim_end(s: Seq<char>) -> Seq<char>
    decreases s.len(),
{
    if s.len() > 0 && is_white_space(s.last()) {
        trim_end(s.drop_last())
    } else {
        s
    }
}

/// `s` without its leading and trailing white space, as `str::trim` gives it.
pub open spec fn trim(s: Seq<char>) -> Seq<char> {
    trim_end(trim_start(s))
}

/// The maximal runs of characters of `s` that are not white space, in order,
/// as `str::split_whitespace` gives them.
pub open spec fn words(s: Seq<char>) -> Seq<Seq<char>>
    decreases s.len(),
{
    if s.len() == 0 {
        Seq::empty()
    } else {
        let p = words(s.drop_last());
        let c = s.last();
        if is_white_space(c) {
            p
        } else if s.len() >= 2 && !is_white_space(s[s.len() - 2]) {
            p.update(p.len() - 1, p.last().push(c))
        } else {
            p.push(seq![c])
        }
    }
}

/// The texts of a sequence of character vectors, one for one.
pub open spec fn views(v: Seq<Vec<char>>) -> Seq<Seq<char>> {
    v.map_values(|x: Vec<char>| x@)
}

/// The characters of a text.
pub fn chars_of(s: &str) -> (r: Vec<char>)
    ensures
        r@ == s@,
{
    let mut out: Vec<char> = Vec::new();
    for c in it: s.chars()
        invariant
            out@ == it.seq().take(it.index() as int),
    {
        out.push(c);
    }
    out
}

/// Appends a character: `String::push`.
///
/// Trusted: the text afterwards is the text before with `c` at its end, as
/// `String::push` documents.
#[verifier::external_body]
fn push_char(s: &mut String, c: char)
    ensures
        final(s)@ == old(s)@.push(c),
{
    s.push(c)
}

/// The text made of the characters `cs`.
pub fn string_of(cs: &[char]) -> (r: String)
    ensures
        r@ == cs@,
{
    let mut s = String::new();
    let n = cs.len();
    for i in 0..n
        invariant
            n == cs@.len(),
            s@ == cs@.take(i as int),
    {
        push_char(&mut s, cs[i]);
        proof {
            assert(cs@.take(i + 1) =~= cs@.take(i as int).push(cs@[i as int]));
        }
    }
    proof {
        assert(cs@.take(n as int) =~= cs@);
    }
    s
}

/// The characters of `cs` from `start` up to `end`.
pub fn slice_chars(cs: &[char], start: usize, end: usize) -> (r: Vec<char>)
    requires
        start <= end <= cs@.len(),
    ensures
        r@ == cs@.subrange(start as int, end as int),
{
    let mut out: Vec<char> = Vec::new();
    let mut i = start;
    while i < end
        invariant
            start <= i <= end <= cs@.len(),
            out@ == cs@.subrange(start as int, i as int),
        decreases end - i,
    {
        out.push(cs[i]);
        i = i + 1;
        proof {
            assert(out@ =~= cs@.subrange(start as int, i as int));
        }
    }
    out
}

/// Whether two runs of characters are the same.
pub fn same_chars(a: &[char], b: &[char]) -> (r: bool)
    ensures
        r == (a@ == b@),
{
    if a.len() != b.len() {
        return false;
    }
    let n = a.len();
    for i in 0..n
        invariant
            n == a@.len(),
            n == b@.len(),
            forall|j: int| 0 <= j < i ==> a@[j] == b@[j],
    {
        if a[i] != b[i] {
            return false;
        }
    }
    proof {
        assert(a@ =~= b@);
    }
    true
}

/// The pieces of `s` between the occurrences of `sep`.
pub fn split_chars(s: &[char], sep: char) -> (r: Vec<Vec<char>>)
    ensures
        views(r@) == split_on(s@, sep),
{
    let mut pieces: Vec<Vec<char>> = Vec::new();
    let mut cur: Vec<char> = Vec::new();
    let n = s.len();
    proof {
        assert(s@.take(0) =~= Seq::<char>::empty());
        assert(views(pieces@).push(cur@) =~= split_on(s@.take(0), sep));
    }
    for i in 0..n
        invariant
            n == s@.len(),
            views(pieces@).push(cur@) == split_on(s@.take(i as int), sep),
    {
        let c = s[i];
        proof {
            assert(s@.take(i + 1).drop_last() =~= s@.take(i as int));
            assert(s@.take(i + 1).last() == c);
        }
        let ghost before = views(pieces@);
        let ghost old_cur = cur@;
        if c == sep {
            pieces.push(cur);
            cur = Vec::new();
            proof {
                assert(views(pieces@) =~= before.push(old_cur));
                assert(views(pieces@).push(cur@) =~= split_on(s@.take(i + 1), sep));
            }
        } else {
            cur.push(c);
            proof {
                assert(views(pieces@).push(cur@) =~= before.push(old_cur).update(
                    before.len() as int,
                    old_cur.push(c),
                ));
            }
        }
    }
    let ghost before = views(pieces@);
    let ghost last = cur@;
    pieces.push(cur);
    proof {
        assert(s@.take(n as int) =~= s@);
        assert(views(pieces@) =~= before.push(last));
    }
    pieces
}

/// `s` without its leading and trailing white space.
pub fn trim_chars(s: &[char]) -> (r: Vec<char>)
    ensures
        r@ == trim(s@),
{
    let n = s.len();
    let mut a: usize = 0;
    proof {
        assert(s@.skip(0) =~= s@);
    }
    while a < n && white_space(s[a])
        invariant
            a <= n == s@.len(),
            trim_start(s@) == trim_start(s@.skip(a as int)),
        decreases n - a,
    {
        proof {
            assert(s@.skip(a as int).drop_first() =~= s@.skip(a + 1));
        }
        a = a + 1;
    }
    proof {
        assert(trim_start(s@) == s@.skip(a as int));
        assert(s@.skip(a as int) =~= s@.subrange(a as int, n as int));
    }
    let mut b: usize = n;
    while b > a && white_space(s[b - 1])
        invariant
            a <= b <= n == s@.len(),
            trim_start(s@) == s@.subrange(a as int, n as int),
            trim(s@) == trim_end(s@.subrange(a as int, b as int)),
        decreases b,
    {
        proof {
            assert(s@.subrange(a as int, b as int).drop_last() =~= s@.subrange(
                a as int,
                b - 1,
            ));
        }
        b = b - 1;
    }
    slice_chars(s, a, b)
}

/// The words of `s`.
pub fn words_of(s: &[char]) -> (r: Vec<Vec<char>>)
    ensures
        views(r@) == words(s@),
{
    let mut pieces: Vec<Vec<char>> = Vec::new();
    let mut cur: Vec<char> = Vec::new();
    let mut in_word = false;
    let n = s.len();
    proof {
        assert(s@.take(0) =~= Seq::<char>::empty());
    }
    for i in 0..n
        invariant
            n == s@.len(),
            in_word ==> i > 0 && !is_white_space(s@[i - 1]) && views(pieces@).push(cur@)
                == words(s@.take(i as int)),
            !in_word ==> (i == 0 || is_white_space(s@[i - 1])) && cur@.len() == 0
                && views(pieces@) == words(s@.take(i as int)),
    {
        let c = s[i];
        proof {
            assert(s@.take(i + 1).drop_last() =~= s@.take(i as int));
            assert(s@.take(i + 1).last() == c);
            if i > 0 {
                assert(s@.take(i + 1)[i - 1] == s@[i - 1]);
            }
        }
        let ghost before = views(pieces@);
        let ghost old_cur = cur@;
        if white_space(c) {
            if in_word {
                pieces.push(cur);
                cur = Vec::new();
                in_word = false;
                proof {
                    assert(views(pieces@) =~= before.push(old_cur));
                }
            }
        } else {
            cur.push(c);
            proof {
                if in_word {
                    assert(views(pieces@).push(cur@) =~= before.push(old_cur).update(
                        before.len() as int,
                        old_cur.push(c),
                    ));
                } else {
                    assert(cur@ =~= seq![c]);
                }
            }
            in_word = true;
        }
    }
    proof {
        assert(s@.take(n as int) =~= s@);
    }
    if in_word {
        let ghost before = views(pieces@);
        let ghost last = cur@;
        pieces.push(cur);
        proof {
            assert(views(pieces@) =~= before.push(last));
        }
    }
    pieces
}

/// Cutting a concatenation: the last piece of the first part and the first
/// piece of the second part join up.
pub proof fn lemma_split_on_concat(s: Seq<char>, t: Seq<char>, sep: char)
    ensures
        split_on(s + t, sep) == split_on(s, sep).drop_last() + seq![
            split_on(s, sep).last() + split_on(t, sep)[0],
        ] + split_on(t, sep).drop_first(),
    decreases t.len(),
{
    lemma_split_on_len(s, sep);
    lemma_split_on_len(t, sep);
    if t.len() == 0 {
        assert(s + t =~= s);
        assert(split_on(s, sep).last() + split_on(t, sep)[0] =~= split_on(s, sep).last());
        assert(split_on(s, sep) =~= split_on(s, sep).drop_last() + seq![split_on(s, sep).last()]);
    } else {
        let t0 = t.drop_last();
        lemma_split_on_concat(s, t0, sep);
        lemma_split_on_len(t0, sep);
        assert((s + t).drop_last() =~= s + t0);
        assert((s + t).last() == t.last());
        let p = split_on(s, sep);
        let q0 = split_on(t0, sep);
        if t.last() == sep {
            assert(split_on(s + t, sep) =~= p.drop_last() + seq![p.last() + split_on(t, sep)[0]]
                + split_on(t, sep).drop_first());
        } else {
            if q0.len() == 1 {
                assert(split_on(s + t, sep) =~= p.drop_last() + seq![
                    p.last() + split_on(t, sep)[0],
                ] + split_on(t, sep).drop_first());
            } else {
                assert(split_on(s + t, sep) =~= p.drop_last() + seq![
                    p.last() + split_on(t, sep)[0],
                ] + split_on(t, sep).drop_first());
            }
        }
    }
}

/// A text without the separator is one piece.
pub proof fn lemma_split_on_none(s: Seq<char>, sep: char)
    requires
        !s.contains(sep),
    ensures
        split_on(s, sep) == seq![s],
    decreases s.len(),
{
    if s.len() == 0 {
        assert(s =~= Seq::<char>::empty());
        assert(split_on(s, sep) =~= seq![s]);
    } else {
        assert(!s.drop_last().contains(sep)) by {
            if s.drop_last().contains(sep) {
                let k = choose|k: int| 0 <= k < s.drop_last().len() && s.drop_last()[k] == sep;
                assert(s[k] == sep);
            }
        }
        lemma_split_on_none(s.drop_last(), sep);
        assert(s.last() != sep) by {
            assert(s[s.len() - 1] == s.last());
        }
        assert(s.drop_last().push(s.last()) =~= s);
    }
}

/// Appending the separator and a piece that holds no separator adds that
/// piece to the pieces.
pub proof fn lemma_split_on_append(x: Seq<char>, b: Seq<char>, sep: char)
    requires
        !b.contains(sep),
    ensures
        split_on(x + seq![sep] + b, sep) == split_on(x, sep).push(b),
{
    lemma_split_on_none(b, sep);
    let xs = x + seq![sep];
    assert(xs.drop_last() =~= x);
    assert(xs.last() == sep);
    assert(split_on(xs, sep) == split_on(x, sep).push(Seq::empty()));
    lemma_split_on_concat(xs, b, sep);
    assert(Seq::<char>::empty() + b =~= b);
    assert(split_on(xs + b, sep) =~= split_on(x, sep).push(b));
}

/// A text whose first and last characters are not white space is its own trim.
pub proof fn lemma_trim_unchanged(s: Seq<char>)
    requires
        s.len() > 0,
        !is_white_space(s[0]),
        !is_white_space(s.last()),
    ensures
        trim(s) == s,
{
}

/// A word appended after white space (or at the start) is one more word,
/// whole.
pub proof fn lemma_words_append_word(s: Seq<char>, w: Seq<char>)
    requires
        s.len() == 0 || is_white_space(s.last()),
        w.len() > 0,
        forall|i: int| 0 <= i < w.len() ==> !is_white_space(#[trigger] w[i]),
    ensures
        words(s + w) == words(s).push(w),
    decreases w.len(),
{
    let sw = s + w;
    if w.len() == 1 {
        assert(sw.drop_last() =~= s);
        assert(sw.last() == w[0]);
        if s.len() > 0 {
            assert(sw[sw.len() - 2] == s.last());
        }
        assert(seq![w[0]] =~= w);
    } else {
        let w0 = w.drop_last();
        assert forall|i: int| 0 <= i < w0.len() implies !is_white_space(#[trigger] w0[i]) by {
            assert(w0[i] == w[i]);
        }
        lemma_words_append_word(s, w0);
        assert(sw.drop_last() =~= s + w0);
        assert(sw.last() == w.last());
        assert(sw[sw.len() - 2] == w[w.len() - 2]);
        assert(!is_white_space(w[w.len() - 1]));
        assert(!is_white_space(w[w.len() - 2]));
        assert(w0.push(w.last()) =~= w);
        assert(words(s).push(w0).update(words(s).len() as int, w0.push(w.last())) =~= words(
            s,
        ).push(w));
    }
}

/// White space at the end adds no word.
pub proof fn lemma_words_append_space(s: Seq<char>, c: char)
    requires
        is_white_space(c),
    ensures
        words(s.push(c)) == words(s),
{
    assert(s.push(c).drop_last() =~= s);
}

} // verus!
