use vstd::prelude::*;

verus! {

broadcast use vstd::string::group_string_axioms;

/// The pieces of `s` between occurrences of `sep`, in order: what `str::split`
/// with a single character yields. There is always at least one piece, and
/// two adjacent separators give an empty piece between them.
pub open spec fn split_on(s: Seq<char>, sep: char) -> Seq<Seq<char>>
    decreases s.len(),
{
    if s.len() == 0 {
        seq![Seq::<char>::empty()]
    } else {
        let init = split_on(s.drop_last(), sep);
        if s.last() == sep {
            init.push(Seq::<char>::empty())
        } else {
            init.update(init.len() - 1, init.last().push(s.last()))
        }
    }
}

/// The views of a sequence of strings.
pub open spec fn views(v: Seq<String>) -> Seq<Seq<char>> {
    v.map_values(|s: String| s@)
}

/// There is always at least one piece.
pub proof fn lemma_split_nonempty(s: Seq<char>, sep: char)
    ensures
        split_on(s, sep).len() >= 1,
    decreases s.len(),
{
    if s.len() > 0 {
        lemma_split_nonempty(s.drop_last(), sep);
    }
}

/// One more character extends the split of a prefix: a separator opens a new
/// empty piece, any other character is added to the last piece.
pub proof fn lemma_split_step(s: Seq<char>, sep: char, i: int)
    requires
        0 <= i < s.len(),
    ensures
        split_on(s.take(i + 1), sep) == (if s[i] == sep {
            split_on(s.take(i), sep).push(Seq::<char>::empty())
        } else {
            split_on(s.take(i), sep).update(
                split_on(s.take(i), sep).len() - 1,
                split_on(s.take(i), sep).last().push(s[i]),
            )
        }),
{
    assert(s.take(i + 1).drop_last() =~= s.take(i));
}

/// Reading further never changes a piece that a separator has already closed.
pub proof fn lemma_split_prefix_stable(s: Seq<char>, sep: char, n: int, m: int)
    requires
        0 <= n <= m <= s.len(),
    ensures
        split_on(s.take(m), sep).len() >= split_on(s.take(n), sep).len(),
        forall|k: int|
            0 <= k < split_on(s.take(n), sep).len() - 1 ==> #[trigger] split_on(s.take(m), sep)[k]
                == split_on(s.take(n), sep)[k],
    decreases m - n,
{
    if n < m {
        lemma_split_prefix_stable(s, sep, n, m - 1);
        lemma_split_step(s, sep, m - 1);
        lemma_split_nonempty(s.take(m - 1), sep);
    }
}

/// The pieces written one after another with `sep` between each two.
pub open spec fn join(pieces: Seq<Seq<char>>, sep: char) -> Seq<char>
    decreases pieces.len(),
{
    if pieces.len() == 0 {
        Seq::<char>::empty()
    } else if pieces.len() == 1 {
        pieces[0]
    } else {
        join(pieces.drop_last(), sep).push(sep) + pieces.last()
    }
}

/// Law: splitting loses nothing and invents nothing: no piece holds the
/// separator, and joining the pieces with it gives back the whole string.
pub proof fn law_split_join(s: Seq<char>, sep: char)
    ensures
        join(split_on(s, sep), sep) == s,
        forall|k: int|
            0 <= k < split_on(s, sep).len() ==> !(#[trigger] split_on(s, sep)[k]).contains(sep),
    decreases s.len(),
{
    if s.len() == 0 {
        assert(join(split_on(s, sep), sep) =~= s);
    } else {
        let t = s.drop_last();
        let c = s.last();
        law_split_join(t, sep);
        lemma_split_nonempty(t, sep);
        let init = split_on(t, sep);
        let p = split_on(s, sep);
        if c == sep {
            assert(p.drop_last() =~= init);
            assert(join(p, sep) =~= s);
            assert forall|k: int| 0 <= k < p.len() implies !(#[trigger] p[k]).contains(sep) by {
                if k < init.len() {
                    assert(p[k] == init[k]);
                } else {
                    assert(p[k] =~= Seq::<char>::empty());
                }
            }
        } else {
            let last = init.last().push(c);
            if init.len() == 1 {
                assert(p =~= seq![last]);
                assert(join(p, sep) =~= s);
            } else {
                assert(p.drop_last() =~= init.drop_last());
                assert(join(p, sep) =~= join(init.drop_last(), sep).push(sep) + last);
                let x = join(init.drop_last(), sep).push(sep);
                assert(t == x + init.last());
                assert((x + init.last()).push(c) =~= x + last);
                assert(s =~= t.push(c));
                assert(join(p, sep) =~= s);
            }
            assert forall|k: int| 0 <= k < p.len() implies !(#[trigger] p[k]).contains(sep) by {
                if k < init.len() - 1 {
                    assert(p[k] == init[k]);
                } else {
                    assert(p[k] == last);
                    assert(!init[init.len() - 1].contains(sep));
                    if last.contains(sep) {
                        let w = choose|w: int| 0 <= w < last.len() && last[w] == sep;
                        if w < last.len() - 1 {
                            assert(init.last()[w] == sep);
                        }
                    }
                }
            }
        }
    }
}

/// The first piece opens the joined string, and is followed by the separator
/// when there is more than one piece.
pub proof fn lemma_join_first(pieces: Seq<Seq<char>>, sep: char)
    requires
        pieces.len() >= 1,
    ensures
        pieces[0].is_prefix_of(join(pieces, sep)),
        pieces.len() >= 2 ==> join(pieces, sep).len() > pieces[0].len() && join(pieces, sep)[pieces[0].len() as int] == sep,
    decreases pieces.len(),
{
    if pieces.len() >= 2 {
        let init = pieces.drop_last();
        lemma_join_first(init, sep);
        let j = join(pieces, sep);
        let ji = join(init, sep);
        assert(j =~= ji.push(sep) + pieces.last());
        assert(init[0] == pieces[0]);
        assert(j.subrange(0, pieces[0].len() as int) =~= ji.subrange(0, pieces[0].len() as int));
        if pieces.len() == 2 {
            assert(ji == pieces[0]);
        } else {
            assert(j[pieces[0].len() as int] == ji[pieces[0].len() as int]);
        }
    }
}

/// Law: a prefix of a string that holds no separator is a prefix of the
/// string's first piece.
pub proof fn law_prefix_in_first_piece(s: Seq<char>, sep: char, p: Seq<char>)
    requires
        p.is_prefix_of(s),
        !p.contains(sep),
    ensures
        p.is_prefix_of(split_on(s, sep)[0]),
{
    law_split_join(s, sep);
    lemma_split_nonempty(s, sep);
    let pieces = split_on(s, sep);
    lemma_join_first(pieces, sep);
    let f = pieces[0];
    if p.len() > f.len() {
        assert(pieces.len() >= 2) by {
            if pieces.len() == 1 {
                assert(join(pieces, sep) == f);
            }
        }
        assert(s[f.len() as int] == sep);
        assert(p[f.len() as int] == s[f.len() as int]);
    } else {
        assert(p =~= f.subrange(0, p.len() as int)) by {
            assert forall|i: int| 0 <= i < p.len() implies p[i] == f[i] by {
                assert(p[i] == s[i]);
                assert(f[i] == s[i]);
            }
        }
    }
}

/// Whether `key` begins the characters of `v` from `start` to `end`.
pub fn has_prefix_at(v: &Vec<char>, start: usize, end: usize, key: &Vec<char>) -> (b: bool)
    requires
        start <= end <= v@.len(),
    ensures
        b == key@.is_prefix_of(v@.subrange(start as int, end as int)),
{
    if key.len() > end - start {
        return false;
    }
    let mut k: usize = 0;
    while k < key.len()
        invariant
            start <= end <= v@.len(),
            key@.len() <= end - start,
            0 <= k <= key@.len(),
            forall|j: int| 0 <= j < k ==> key@[j] == v@[start + j],
        decreases key@.len() - k,
    {
        if key[k] != v[start + k] {
            assert(key@[k as int] != v@.subrange(start as int, end as int)[k as int]);
            return false;
        }
        k += 1;
    }
    assert(key@ =~= v@.subrange(start as int, end as int).subrange(0, key@.len() as int));
    true
}

/// The characters of `s`, in order.
pub fn chars_of(s: &str) -> (v: Vec<char>)
    ensures
        v@ == s@,
{
    let mut v: Vec<char> = Vec::new();
    for c in it: s.chars()
        invariant
            v@ == it.seq().take(it.index() as int),
    {
        v.push(c);
    }
    v
}

/// The pieces of `s` between occurrences of `sep`, as `str::split` gives them.
pub fn split_fields(s: &str, sep: char) -> (pieces: Vec<String>)
    ensures
        views(pieces@) == split_on(s@, sep),
        join(views(pieces@), sep) == s@,
        forall|k: int| 0 <= k < pieces@.len() ==> !(#[trigger] pieces@[k]@).contains(sep),
{
    proof {
        law_split_join(s@, sep);
    }
    let v = chars_of(s);
    let n = v.len();
    let mut pieces: Vec<String> = Vec::new();
    let mut start: usize = 0;
    let mut i: usize = 0;
    assert(v@.take(0) =~= Seq::<char>::empty());
    assert(views(pieces@).push(v@.subrange(0, 0)) =~= seq![Seq::<char>::empty()]);
    while i < n
        invariant
            n == v@.len(),
            v@ == s@,
            start <= i <= n,
            split_on(v@.take(i as int), sep) == views(pieces@).push(
                v@.subrange(start as int, i as int),
            ),
        decreases n - i,
    {
        proof {
            lemma_split_step(v@, sep, i as int);
        }
        if v[i] == sep {
            let piece = String::from_str(s.substring_char(start, i));
            let ghost before = pieces@;
            pieces.push(piece);
            assert(views(pieces@) =~= views(before).push(piece@));
            start = i + 1;
            assert(v@.subrange(start as int, start as int) =~= Seq::<char>::empty());
        } else {
            assert(v@.subrange(start as int, i + 1) =~= v@.subrange(start as int, i as int).push(
                v@[i as int],
            ));
        }
        i += 1;
    }
    let last = String::from_str(s.substring_char(start, n));
    let ghost before = pieces@;
    pieces.push(last);
    assert(views(pieces@) =~= views(before).push(last@));
    assert(v@.take(n as int) =~= v@);
    assert forall|k: int| 0 <= k < pieces@.len() implies !(#[trigger] pieces@[k]@).contains(sep) by {
        assert(views(pieces@)[k] == pieces@[k]@);
    }
    pieces
}

} // verus!
