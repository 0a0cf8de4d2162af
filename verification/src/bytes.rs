use vstd::prelude::*;

verus! {

/// The contents of each vector of a sequence of byte vectors.
pub open spec fn vviews(v: Seq<Vec<u8>>) -> Seq<Seq<u8>> {
    v.map_values(|x: Vec<u8>| x@)
}

/// Index of the first occurrence of `b` in `s`, or `s.len()` when it does not occur.
pub open spec fn find_byte(s: Seq<u8>, b: u8) -> int
    decreases s.len(),
{
    if s.len() == 0 {
        0
    } else if s[0] == b {
        0
    } else {
        1 + find_byte(s.drop_first(), b)
    }
}

pub proof fn lemma_find_byte(s: Seq<u8>, b: u8)
    ensures
        0 <= find_byte(s, b) <= s.len(),
        forall|k: int| 0 <= k < find_byte(s, b) ==> s[k] != b,
        find_byte(s, b) < s.len() ==> s[find_byte(s, b)] == b,
    decreases s.len(),
{
    if s.len() > 0 && s[0] != b {
        lemma_find_byte(s.drop_first(), b);
        assert forall|k: int| 0 <= k < find_byte(s, b) implies s[k] != b by {
            if k > 0 {
                assert(s[k] == s.drop_first()[k - 1]);
            }
        }
    }
}

/// A position `i` that holds `b`, with no `b` before it, is the first occurrence.
pub proof fn lemma_find_byte_at(s: Seq<u8>, b: u8, i: int)
    requires
        0 <= i <= s.len(),
        forall|k: int| 0 <= k < i ==> s[k] != b,
        i < s.len() ==> s[i] == b,
    ensures
        find_byte(s, b) == i,
{
    lemma_find_byte(s, b);
    let f = find_byte(s, b);
    if f < i {
        assert(s[f] == b);
    }
    if i < f {
        assert(s[i] != b);
    }
}

/// The pieces of `s` between occurrences of `sep`, as `str::split` gives them:
/// there is always at least one piece, and neighbouring separators give empty pieces.
pub open spec fn split_on(s: Seq<u8>, sep: u8) -> Seq<Seq<u8>>
    decreases s.len(),
{
    let i = find_byte(s, sep);
    if i >= s.len() || i < 0 {
        seq![s]
    } else {
        seq![s.take(i)] + split_on(s.skip(i + 1), sep)
    }
}

pub proof fn lemma_split_on_nonempty(s: Seq<u8>, sep: u8)
    ensures
        split_on(s, sep).len() >= 1,
    decreases s.len(),
{
    lemma_find_byte(s, sep);
    let i = find_byte(s, sep);
    if i < s.len() {
        lemma_split_on_nonempty(s.skip(i + 1), sep);
    }
}

/// Copies `s[from..to]` into a new vector.
pub fn copy_range(s: &[u8], from: usize, to: usize) -> (r: Vec<u8>)
    requires
        from <= to <= s@.len(),
    ensures
        r@ == s@.subrange(from as int, to as int),
{
    let mut r: Vec<u8> = Vec::new();
    let mut k: usize = from;
    while k < to
        invariant
            from <= k <= to <= s@.len(),
            r@ == s@.subrange(from as int, k as int),
        decreases to - k,
    {
        r.push(s[k]);
        k = k + 1;
        assert(r@ =~= s@.subrange(from as int, k as int));
    }
    r
}

/// Splits `s` at every occurrence of `sep`.
pub fn split_bytes(s: &[u8], sep: u8) -> (r: Vec<Vec<u8>>)
    ensures
        vviews(r@) == split_on(s@, sep),
{
    let len = s.len();
    let mut r: Vec<Vec<u8>> = Vec::new();
    let mut start: usize = 0;
    let mut i: usize = 0;
    assert(s@.skip(0) =~= s@);
    assert(vviews(r@) + split_on(s@, sep) =~= split_on(s@, sep));
    while i < len
        invariant
            len == s@.len(),
            start <= i <= len,
            forall|k: int| start <= k < i ==> s@[k] != sep,
            vviews(r@) + split_on(s@.skip(start as int), sep) == split_on(s@, sep),
        decreases len - i,
    {
        if s[i] == sep {
            let piece = copy_range(s, start, i);
            proof {
                let rest = s@.skip(start as int);
                lemma_find_byte_at(rest, sep, (i - start) as int);
                assert(rest.take((i - start) as int) =~= piece@);
                assert(rest.skip((i - start) as int + 1) =~= s@.skip(i + 1));
                assert(split_on(rest, sep) == seq![piece@] + split_on(s@.skip(i + 1), sep));
            }
            let ghost old_r = vviews(r@);
            r.push(piece);
            assert(vviews(r@) =~= old_r.push(piece@));
            assert(vviews(r@) + split_on(s@.skip(i + 1), sep) =~= old_r + (seq![piece@]
                + split_on(s@.skip(i + 1), sep)));
            start = i + 1;
        }
        i = i + 1;
    }
    let piece = copy_range(s, start, len);
    proof {
        let rest = s@.skip(start as int);
        lemma_find_byte_at(rest, sep, rest.len() as int);
        assert(rest =~= piece@);
    }
    let ghost old_r = vviews(r@);
    r.push(piece);
    assert(vviews(r@) =~= old_r.push(piece@));
    r
}

/// A line without the carriage return that may end it.
pub open spec fn strip_cr(l: Seq<u8>) -> Seq<u8> {
    if l.len() > 0 && l.last() == 13u8 {
        l.drop_last()
    } else {
        l
    }
}

/// The lines of `text` as `BufRead::lines` yields them: split at `\n`, with a `\r` right
/// before the `\n` removed, and no empty line after a final `\n`.
pub open spec fn lines_of(text: Seq<u8>) -> Seq<Seq<u8>>
    decreases text.len(),
{
    if text.len() == 0 {
        seq![]
    } else {
        let i = find_byte(text, 10u8);
        if i >= text.len() || i < 0 {
            seq![text]
        } else {
            seq![strip_cr(text.take(i))] + lines_of(text.skip(i + 1))
        }
    }
}

/// Splits `text` into lines.
pub fn split_lines(text: &[u8]) -> (r: Vec<Vec<u8>>)
    ensures
        vviews(r@) == lines_of(text@),
{
    let len = text.len();
    let mut r: Vec<Vec<u8>> = Vec::new();
    let mut start: usize = 0;
    let mut i: usize = 0;
    assert(text@.skip(0) =~= text@);
    assert(vviews(r@) + lines_of(text@) =~= lines_of(text@));
    while i < len
        invariant
            len == text@.len(),
            start <= i <= len,
            forall|k: int| start <= k < i ==> text@[k] != 10u8,
            vviews(r@) + lines_of(text@.skip(start as int)) == lines_of(text@),
        decreases len - i,
    {
        if text[i] == 10u8 {
            let mut piece = copy_range(text, start, i);
            if piece.len() > 0 && piece[piece.len() - 1] == 13u8 {
                piece.pop();
            }
            proof {
                let rest = text@.skip(start as int);
                lemma_find_byte_at(rest, 10u8, (i - start) as int);
                assert(rest.take((i - start) as int) =~= text@.subrange(start as int, i as int));
                assert(rest.skip((i - start) as int + 1) =~= text@.skip(i + 1));
                assert(piece@ =~= strip_cr(text@.subrange(start as int, i as int)));
            }
            let ghost old_r = vviews(r@);
            r.push(piece);
            assert(vviews(r@) =~= old_r.push(piece@));
            assert(vviews(r@) + lines_of(text@.skip(i + 1)) =~= old_r + (seq![piece@]
                + lines_of(text@.skip(i + 1))));
            start = i + 1;
        }
        i = i + 1;
    }
    if start < len {
        let piece = copy_range(text, start, len);
        proof {
            let rest = text@.skip(start as int);
            lemma_find_byte_at(rest, 10u8, rest.len() as int);
            assert(rest =~= piece@);
        }
        let ghost old_r = vviews(r@);
        r.push(piece);
        assert(vviews(r@) =~= old_r.push(piece@));
    } else {
        assert(text@.skip(start as int) =~= Seq::<u8>::empty());
        assert(vviews(r@) + Seq::<Seq<u8>>::empty() =~= vviews(r@));
    }
    r
}

/// Whether two byte strings are equal.
pub fn bytes_equal(a: &[u8], b: &[u8]) -> (r: bool)
    ensures
        r == (a@ == b@),
{
    if a.len() != b.len() {
        return false;
    }
    let mut i: usize = 0;
    while i < a.len()
        invariant
            a@.len() == b@.len(),
            i <= a@.len(),
            forall|k: int| 0 <= k < i ==> a@[k] == b@[k],
        decreases a@.len() - i,
    {
        if a[i] != b[i] {
            return false;
        }
        i = i + 1;
    }
    assert(a@ =~= b@);
    true
}

pub proof fn lemma_find_byte_append(a: Seq<u8>, b: Seq<u8>, x: u8)
    requires
        find_byte(a, x) < a.len(),
    ensures
        find_byte(a + b, x) == find_byte(a, x),
{
    lemma_find_byte(a, x);
    let i = find_byte(a, x);
    assert forall|k: int| 0 <= k < i implies (a + b)[k] != x by {
        assert((a + b)[k] == a[k]);
    }
    assert((a + b)[i] == a[i]);
    lemma_find_byte_at(a + b, x, i);
}

/// Lines of text that ends a line can be read apart from what follows.
pub proof fn lemma_lines_of_append(a: Seq<u8>, b: Seq<u8>)
    requires
        a.len() == 0 || a.last() == 10u8,
    ensures
        lines_of(a + b) == lines_of(a) + lines_of(b),
    decreases a.len(),
{
    if a.len() == 0 {
        assert(a + b =~= b);
        assert(lines_of(a) =~= Seq::<Seq<u8>>::empty());
        assert(Seq::<Seq<u8>>::empty() + lines_of(b) =~= lines_of(b));
    } else {
        lemma_find_byte(a, 10u8);
        lemma_find_byte_at(a, 10u8, find_byte(a, 10u8));
        if find_byte(a, 10u8) >= a.len() {
            assert(a[a.len() - 1] != 10u8);
        }
        let i = find_byte(a, 10u8);
        lemma_find_byte_append(a, b, 10u8);
        assert((a + b).take(i) =~= a.take(i));
        assert((a + b).skip(i + 1) =~= a.skip(i + 1) + b);
        let rest = a.skip(i + 1);
        if rest.len() > 0 {
            assert(rest.last() == a.last());
        }
        lemma_lines_of_append(rest, b);
        assert(lines_of(a + b) =~= lines_of(a) + lines_of(b));
    }
}

/// A single line, ended by a newline.
pub proof fn lemma_lines_of_line(l: Seq<u8>)
    requires
        forall|k: int| 0 <= k < l.len() ==> l[k] != 10u8,
        l.len() == 0 || l.last() != 13u8,
    ensures
        lines_of(l + seq![10u8]) == seq![l],
{
    let t = l + seq![10u8];
    assert forall|k: int| 0 <= k < l.len() implies t[k] != 10u8 by {
        assert(t[k] == l[k]);
    }
    lemma_find_byte_at(t, 10u8, l.len() as int);
    assert(t.take(l.len() as int) =~= l);
    assert(t.skip(l.len() as int + 1) =~= Seq::<u8>::empty());
    assert(lines_of(Seq::<u8>::empty()) =~= Seq::<Seq<u8>>::empty());
    assert(lines_of(t) =~= seq![l]);
}

/// Splitting at a separator that follows a piece without one.
pub proof fn lemma_split_on_prefix(a: Seq<u8>, rest: Seq<u8>, sep: u8)
    requires
        forall|k: int| 0 <= k < a.len() ==> a[k] != sep,
    ensures
        split_on(a + seq![sep] + rest, sep) == seq![a] + split_on(rest, sep),
{
    let t = a + seq![sep] + rest;
    assert forall|k: int| 0 <= k < a.len() implies t[k] != sep by {
        assert(t[k] == a[k]);
    }
    lemma_find_byte_at(t, sep, a.len() as int);
    assert(t.take(a.len() as int) =~= a);
    assert(t.skip(a.len() as int + 1) =~= rest);
}

/// A piece without the separator is not split.
pub proof fn lemma_split_on_whole(a: Seq<u8>, sep: u8)
    requires
        forall|k: int| 0 <= k < a.len() ==> a[k] != sep,
    ensures
        split_on(a, sep) == seq![a],
{
    lemma_find_byte_at(a, sep, a.len() as int);
}

} // verus!
