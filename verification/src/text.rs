use vstd::prelude::*;

verus! {

/// The pieces of `s` between the occurrences of `sep`, as `split` yields them:
/// one more piece than there are separators, empty pieces included.
pub open spec fn split_on<A>(s: Seq<A>, sep: A) -> Seq<Seq<A>>
    decreases s.len(),
{
    if s.len() == 0 {
        seq![Seq::<A>::empty()]
    } else {
        let front = split_on(s.drop_last(), sep);
        if s.last() == sep {
            front.push(Seq::empty())
        } else {
            front.update(front.len() - 1, front.last().push(s.last()))
        }
    }
}

/// The pieces joined with `sep` between neighbours, as `join` builds them.
pub open spec fn join_with<A>(parts: Seq<Seq<A>>, sep: A) -> Seq<A>
    decreases parts.len(),
{
    if parts.len() == 0 {
        Seq::empty()
    } else if parts.len() == 1 {
        parts[0]
    } else {
        join_with(parts.drop_last(), sep).push(sep) + parts.last()
    }
}

/// Whether `s` holds no `x`.
pub open spec fn free_of<A>(s: Seq<A>, x: A) -> bool {
    forall|i: int| 0 <= i < s.len() ==> s[i] != x
}

/// `split_on` always yields at least one piece.
pub proof fn lemma_split_nonempty<A>(s: Seq<A>, sep: A)
    ensures
        split_on(s, sep).len() >= 1,
    decreases s.len(),
{
    if s.len() > 0 {
        lemma_split_nonempty(s.drop_last(), sep);
    }
}

/// A sequence without the separator forms a single piece.
pub proof fn lemma_split_without_separator<A>(s: Seq<A>, sep: A)
    requires
        free_of(s, sep),
    ensures
        split_on(s, sep) == seq![s],
    decreases s.len(),
{
    if s.len() > 0 {
        assert(s.last() != sep) by {
            assert(s.last() == s[s.len() - 1]);
        }
        assert forall|i: int| 0 <= i < s.drop_last().len() implies s.drop_last()[i] != sep by {
            assert(s.drop_last()[i] == s[i]);
        }
        lemma_split_without_separator(s.drop_last(), sep);
        assert(s.drop_last().push(s.last()) =~= s);
        assert(split_on(s, sep) =~= seq![s]);
    } else {
        assert(s =~= Seq::<A>::empty());
    }
}

/// Appending elements other than the separator extends the last piece.
pub proof fn lemma_split_append_plain<A>(x: Seq<A>, b: Seq<A>, sep: A)
    requires
        free_of(b, sep),
    ensures
        split_on(x + b, sep) == split_on(x, sep).update(
            split_on(x, sep).len() - 1,
            split_on(x, sep).last() + b,
        ),
        split_on(x, sep).len() >= 1,
    decreases b.len(),
{
    lemma_split_nonempty(x, sep);
    if b.len() == 0 {
        assert(x + b =~= x);
        assert(split_on(x, sep).last() + b =~= split_on(x, sep).last());
        assert(split_on(x, sep).update(split_on(x, sep).len() - 1, split_on(x, sep).last() + b)
            =~= split_on(x, sep));
    } else {
        let b0 = b.drop_last();
        assert forall|i: int| 0 <= i < b0.len() implies b0[i] != sep by {
            assert(b0[i] == b[i]);
        }
        lemma_split_append_plain(x, b0, sep);
        assert((x + b).drop_last() =~= x + b0);
        assert((x + b).last() == b.last());
        assert(b.last() != sep) by {
            assert(b.last() == b[b.len() - 1]);
        }
        let p = split_on(x, sep);
        assert((p.last() + b0).push(b.last()) =~= p.last() + b);
        assert(split_on(x + b, sep) =~= p.update(p.len() - 1, p.last() + b));
    }
}

/// Appending the separator opens a new, empty piece.
pub proof fn lemma_split_push_separator<A>(x: Seq<A>, sep: A)
    ensures
        split_on(x.push(sep), sep) == split_on(x, sep).push(Seq::empty()),
{
    assert(x.push(sep).drop_last() =~= x);
}

/// Splitting what `join_with` built gives the pieces back, when no piece holds the separator.
pub proof fn lemma_split_join<A>(parts: Seq<Seq<A>>, sep: A)
    requires
        parts.len() >= 1,
        forall|i: int| 0 <= i < parts.len() ==> free_of(#[trigger] parts[i], sep),
    ensures
        split_on(join_with(parts, sep), sep) == parts,
    decreases parts.len(),
{
    if parts.len() == 1 {
        lemma_split_without_separator(parts[0], sep);
        assert(parts =~= seq![parts[0]]);
    } else {
        let front = parts.drop_last();
        assert forall|i: int| 0 <= i < front.len() implies free_of(#[trigger] front[i], sep) by {
            assert(front[i] == parts[i]);
        }
        lemma_split_join(front, sep);
        let j = join_with(front, sep);
        lemma_split_push_separator(j, sep);
        assert(free_of(parts[parts.len() - 1], sep));
        lemma_split_append_plain(j.push(sep), parts.last(), sep);
        assert(Seq::<A>::empty() + parts.last() =~= parts.last());
        assert(split_on(join_with(parts, sep), sep) =~= parts);
    }
}

/// Every piece that `split_on` yields is free of the separator.
pub proof fn lemma_split_pieces_free<A>(s: Seq<A>, sep: A)
    ensures
        forall|i: int| 0 <= i < split_on(s, sep).len() ==> free_of(#[trigger] split_on(s, sep)[i], sep),
    decreases s.len(),
{
    if s.len() > 0 {
        lemma_split_pieces_free(s.drop_last(), sep);
        lemma_split_nonempty(s.drop_last(), sep);
        let front = split_on(s.drop_last(), sep);
        if s.last() != sep {
            assert(free_of(front.last().push(s.last()), sep)) by {
                assert(free_of(front[front.len() - 1], sep));
            }
            assert forall|i: int| 0 <= i < split_on(s, sep).len() implies free_of(
                #[trigger] split_on(s, sep)[i],
                sep,
            ) by {
                if i < front.len() - 1 {
                    assert(split_on(s, sep)[i] == front[i]);
                }
            }
        } else {
            assert forall|i: int| 0 <= i < split_on(s, sep).len() implies free_of(
                #[trigger] split_on(s, sep)[i],
                sep,
            ) by {
                if i < front.len() {
                    assert(split_on(s, sep)[i] == front[i]);
                }
            }
        }
    }
}

/// How `join_with` ends: with the last piece, which is empty only where the
/// joined text ends with the separator or is the single empty piece.
pub proof fn lemma_join_end<A>(parts: Seq<Seq<A>>, sep: A)
    requires
        parts.len() >= 1,
        forall|i: int| 0 <= i < parts.len() ==> free_of(#[trigger] parts[i], sep),
    ensures
        parts.last().len() > 0 ==> join_with(parts, sep).len() > 0 && join_with(parts, sep).last()
            == parts.last().last(),
        parts.len() == 1 && parts.last().len() == 0 ==> join_with(parts, sep).len() == 0,
        parts.len() >= 2 && parts.last().len() == 0 ==> join_with(parts, sep) == join_with(
            parts.drop_last(),
            sep,
        ).push(sep),
        parts.last().len() > 0 ==> join_with(parts, sep).last() != sep,
{
    assert(free_of(parts[parts.len() - 1], sep));
    if parts.len() >= 2 {
        let j = join_with(parts.drop_last(), sep).push(sep);
        assert(join_with(parts, sep) == j + parts.last());
        if parts.last().len() == 0 {
            assert(j + parts.last() =~= j);
        } else {
            assert((j + parts.last()).last() == parts.last().last());
            assert(parts.last().last() == parts.last()[parts.last().len() - 1]);
        }
    } else if parts.last().len() > 0 {
        assert(parts.last().last() == parts.last()[parts.last().len() - 1]);
    }
}

/// Appends one character to a string (`String::push`).
#[verifier::external_body]
pub(crate) fn push_char(s: &mut String, c: char)
    ensures
        final(s)@ == old(s)@.push(c),
{
    s.push(c);
}

/// The characters of `s`, in order.
pub fn chars_of(s: &str) -> (out: Vec<char>)
    ensures
        out@ == s@,
{
    broadcast use vstd::string::group_string_axioms;

    let mut out: Vec<char> = Vec::new();
    for c in it: s.chars()
        invariant
            out@ == it.seq().take(it.index() as int),
    {
        out.push(c);
    }
    out
}

/// The bytes of `a` followed by the bytes of `b`.
pub fn concat_bytes(a: &[u8], b: &[u8]) -> (out: Vec<u8>)
    ensures
        out@ == a@ + b@,
{
    let mut out: Vec<u8> = Vec::new();
    let mut i: usize = 0;
    while i < a.len()
        invariant
            i <= a.len(),
            out@ == a@.take(i as int),
        decreases a.len() - i,
    {
        out.push(a[i]);
        i += 1;
        assert(out@ =~= a@.take(i as int));
    }
    let mut j: usize = 0;
    while j < b.len()
        invariant
            i == a.len(),
            j <= b.len(),
            out@ == a@ + b@.take(j as int),
        decreases b.len() - j,
    {
        out.push(b[j]);
        j += 1;
        assert(out@ =~= a@ + b@.take(j as int));
    }
    assert(a@.take(i as int) =~= a@);
    assert(b@.take(j as int) =~= b@);
    out
}

/// Whether two byte strings are equal.
pub fn bytes_equal(a: &[u8], b: &[u8]) -> (eq: bool)
    ensures
        eq == (a@ == b@),
{
    if a.len() != b.len() {
        return false;
    }
    let mut i: usize = 0;
    while i < a.len()
        invariant
            i <= a.len(),
            a.len() == b.len(),
            a@.take(i as int) == b@.take(i as int),
        decreases a.len() - i,
    {
        if a[i] != b[i] {
            assert(a@[i as int] != b@[i as int]);
            return false;
        }
        assert(a@.take(i + 1) =~= a@.take(i as int).push(a@[i as int]));
        assert(b@.take(i + 1) =~= b@.take(i as int).push(b@[i as int]));
        i += 1;
    }
    assert(a@ =~= a@.take(i as int));
    assert(b@ =~= b@.take(i as int));
    true
}

} // verus!
