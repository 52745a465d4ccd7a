//! The tokenizer's raw material: whitespace trimming and separator
//! splitting over byte strings, with their mathematical counterparts.

use vstd::prelude::*;

verus! {

/// The ASCII whitespace bytes that trimming removes.
pub open spec fn is_ws(b: u8) -> bool {
    b == 32u8 || (9u8 <= b && b <= 13u8)
}

fn is_ws_byte(b: u8) -> (r: bool)
    ensures
        r == is_ws(b),
{
    b == 32 || (9 <= b && b <= 13)
}

/// `s` with its leading whitespace removed.
pub open spec fn trim_start(s: Seq<u8>) -> Seq<u8>
    decreases s.len(),
{
    if s.len() > 0 && is_ws(s[0]) {
        trim_start(s.drop_first())
    } else {
        s
    }
}

/// `s` with its trailing whitespace removed.
pub open spec fn trim_end(s: Seq<u8>) -> Seq<u8>
    decreases s.len(),
{
    if s.len() > 0 && is_ws(s.last()) {
        trim_end(s.drop_last())
    } else {
        s
    }
}

/// `s` with whitespace removed from both ends.
pub open spec fn trim(s: Seq<u8>) -> Seq<u8> {
    trim_end(trim_start(s))
}

/// The pieces of `s` between occurrences of the separator `sep`, in order.
/// Splitting never yields an empty list: a separator-free `s` (the empty
/// sequence included) is one piece.
pub open spec fn split(s: Seq<u8>, sep: u8) -> Seq<Seq<u8>>
    decreases s.len(),
{
    if s.len() == 0 {
        seq![Seq::<u8>::empty()]
    } else if s[0] == sep {
        seq![Seq::<u8>::empty()].add(split(s.drop_first(), sep))
    } else {
        let rest = split(s.drop_first(), sep);
        seq![seq![s[0]].add(rest[0])].add(rest.drop_first())
    }
}

/// The views of a list of byte vectors.
pub open spec fn views_of(vs: Seq<Vec<u8>>) -> Seq<Seq<u8>> {
    Seq::new(vs.len(), |i: int| vs[i]@)
}

pub proof fn lemma_split_non_empty(s: Seq<u8>, sep: u8)
    ensures
        split(s, sep).len() >= 1,
    decreases s.len(),
{
    if s.len() > 0 {
        lemma_split_non_empty(s.drop_first(), sep);
    }
}

/// No piece of a split contains the separator.
pub proof fn lemma_split_no_sep(s: Seq<u8>, sep: u8)
    ensures
        forall|i: int, k: int|
            0 <= i < split(s, sep).len() && 0 <= k < split(s, sep)[i].len()
                ==> #[trigger] split(s, sep)[i][k] != sep,
    decreases s.len(),
{
    if s.len() == 0 {
    } else {
        lemma_split_no_sep(s.drop_first(), sep);
        let rest = split(s.drop_first(), sep);
        if s[0] == sep {
        } else {
            lemma_split_non_empty(s.drop_first(), sep);
            assert forall|i: int, k: int|
                0 <= i < split(s, sep).len() && 0 <= k < split(s, sep)[i].len()
                    implies #[trigger] split(s, sep)[i][k] != sep by {
                if i == 0 {
                    if k == 0 {
                    } else {
                        assert(split(s, sep)[0][k] == rest[0][k - 1]);
                    }
                } else {
                    assert(split(s, sep)[i] == rest[i]);
                }
            }
        }
    }
}

/// A byte value absent from the input is absent from every piece of a
/// split.
pub proof fn lemma_split_no_byte(s: Seq<u8>, sep: u8, b: u8)
    requires
        forall|k: int| 0 <= k < s.len() ==> s[k] != b,
    ensures
        forall|i: int, k: int|
            0 <= i < split(s, sep).len() && 0 <= k < split(s, sep)[i].len()
                ==> #[trigger] split(s, sep)[i][k] != b,
    decreases s.len(),
{
    if s.len() == 0 {
    } else {
        assert(forall|k: int|
            0 <= k < s.drop_first().len() ==> #[trigger] s.drop_first()[k] == s[k + 1]);
        lemma_split_no_byte(s.drop_first(), sep, b);
        let rest = split(s.drop_first(), sep);
        if s[0] == sep {
        } else {
            lemma_split_non_empty(s.drop_first(), sep);
            assert forall|i: int, k: int|
                0 <= i < split(s, sep).len() && 0 <= k < split(s, sep)[i].len()
                    implies #[trigger] split(s, sep)[i][k] != b by {
                if i == 0 {
                    if k == 0 {
                        assert(split(s, sep)[0][0] == s[0]);
                    } else {
                        assert(split(s, sep)[0][k] == rest[0][k - 1]);
                    }
                } else {
                    assert(split(s, sep)[i] == rest[i]);
                }
            }
        }
    }
}

/// Trimming keeps every byte it keeps from `s`: a byte value absent from
/// `s` is absent from `trim(s)`.
pub proof fn lemma_trim_start_no_byte(s: Seq<u8>, b: u8)
    requires
        forall|k: int| 0 <= k < s.len() ==> s[k] != b,
    ensures
        forall|k: int| 0 <= k < trim_start(s).len() ==> trim_start(s)[k] != b,
    decreases s.len(),
{
    if s.len() > 0 && is_ws(s[0]) {
        assert(forall|k: int|
            0 <= k < s.drop_first().len() ==> #[trigger] s.drop_first()[k] == s[k + 1]);
        lemma_trim_start_no_byte(s.drop_first(), b);
        assert(trim_start(s) == trim_start(s.drop_first()));
        assert forall|k: int| 0 <= k < trim_start(s).len() implies trim_start(s)[k] != b by {
            assert(trim_start(s.drop_first())[k] != b);
        }
    }
}

pub proof fn lemma_trim_end_no_byte(s: Seq<u8>, b: u8)
    requires
        forall|k: int| 0 <= k < s.len() ==> s[k] != b,
    ensures
        forall|k: int| 0 <= k < trim_end(s).len() ==> trim_end(s)[k] != b,
    decreases s.len(),
{
    if s.len() > 0 && is_ws(s.last()) {
        assert(forall|k: int|
            0 <= k < s.drop_last().len() ==> #[trigger] s.drop_last()[k] == s[k]);
        lemma_trim_end_no_byte(s.drop_last(), b);
        assert(trim_end(s) == trim_end(s.drop_last()));
        assert forall|k: int| 0 <= k < trim_end(s).len() implies trim_end(s)[k] != b by {
            assert(trim_end(s.drop_last())[k] != b);
        }
    }
}

pub proof fn lemma_trim_no_byte(s: Seq<u8>, b: u8)
    requires
        forall|k: int| 0 <= k < s.len() ==> s[k] != b,
    ensures
        forall|k: int| 0 <= k < trim(s).len() ==> trim(s)[k] != b,
{
    lemma_trim_start_no_byte(s, b);
    lemma_trim_end_no_byte(trim_start(s), b);
}

/// A copy of `s[a..b]`.
pub fn subvec(s: &Vec<u8>, a: usize, b: usize) -> (r: Vec<u8>)
    requires
        a <= b <= s.len(),
    ensures
        r@ == s@.subrange(a as int, b as int),
{
    let mut r: Vec<u8> = Vec::new();
    let mut i: usize = a;
    while i < b
        invariant
            a <= i <= b <= s.len(),
            r@ == s@.subrange(a as int, i as int),
        decreases b - i,
    {
        r.push(s[i]);
        proof {
            assert(s@.subrange(a as int, i + 1) =~= s@.subrange(a as int, i as int).push(
                s@[i as int],
            ));
        }
        i = i + 1;
    }
    r
}

/// A copy of `s` with whitespace removed from both ends.
pub fn trim_bytes(s: &Vec<u8>) -> (r: Vec<u8>)
    ensures
        r@ == trim(s@),
{
    let mut a: usize = 0;
    proof {
        assert(s@.skip(0) =~= s@);
    }
    while a < s.len() && is_ws_byte(s[a])
        invariant
            0 <= a <= s.len(),
            trim_start(s@) == trim_start(s@.skip(a as int)),
        decreases s.len() - a,
    {
        proof {
            assert(s@.skip(a as int)[0] == s@[a as int]);
            assert(s@.skip(a as int).drop_first() =~= s@.skip(a + 1));
        }
        a = a + 1;
    }
    proof {
        if a == s.len() {
            assert(s@.skip(a as int) =~= Seq::<u8>::empty());
        } else {
            assert(s@.skip(a as int)[0] == s@[a as int]);
        }
        assert(trim_start(s@) == s@.skip(a as int));
    }
    let mut b: usize = s.len();
    proof {
        assert(s@.skip(a as int).take(s@.len() - a) =~= s@.skip(a as int));
    }
    while b > a && is_ws_byte(s[b - 1])
        invariant
            0 <= a <= b <= s.len(),
            trim_end(s@.skip(a as int)) == trim_end(s@.skip(a as int).take(b - a)),
        decreases b,
    {
        proof {
            let u = s@.skip(a as int).take(b - a);
            assert(u.last() == s@[b - 1]);
            assert(u.drop_last() =~= s@.skip(a as int).take(b - 1 - a));
        }
        b = b - 1;
    }
    proof {
        let u = s@.skip(a as int).take(b - a);
        assert(trim_end(u) == u);
        assert(u =~= s@.subrange(a as int, b as int));
    }
    subvec(s, a, b)
}

/// The pieces of `s` between occurrences of `sep`, each as its own vector.
pub fn split_bytes(s: &Vec<u8>, sep: u8) -> (r: Vec<Vec<u8>>)
    ensures
        views_of(r@) == split(s@, sep),
{
    let ghost full = s@;
    let mut done: Vec<Vec<u8>> = Vec::new();
    let mut cur: Vec<u8> = Vec::new();
    let mut i: usize = 0;
    proof {
        assert(full.skip(0) =~= full);
        lemma_split_non_empty(full, sep);
        let rest = split(full, sep);
        assert(views_of(done@).add(seq![cur@.add(rest[0])].add(rest.drop_first())) =~~= rest);
    }
    while i < s.len()
        invariant
            0 <= i <= s.len(),
            full == s@,
            ({
                let rest = split(full.skip(i as int), sep);
                split(full, sep) =~~= views_of(done@).add(
                    seq![cur@.add(rest[0])].add(rest.drop_first()),
                )
            }),
        decreases s.len() - i,
    {
        proof {
            assert(full.skip(i as int)[0] == full[i as int]);
            assert(full.skip(i as int).drop_first() =~= full.skip(i + 1));
            lemma_split_non_empty(full.skip(i + 1), sep);
        }
        let ghost old_done = done@;
        let ghost old_cur = cur@;
        if s[i] == sep {
            done.push(cur);
            cur = Vec::new();
            proof {
                let rest = split(full.skip(i + 1), sep);
                let prev = split(full.skip(i as int), sep);
                assert(prev =~~= seq![Seq::<u8>::empty()].add(rest));
                assert(views_of(old_done).add(seq![old_cur.add(prev[0])].add(prev.drop_first()))
                    =~~= views_of(done@).add(seq![cur@.add(rest[0])].add(rest.drop_first())));
            }
        } else {
            cur.push(s[i]);
            proof {
                let rest = split(full.skip(i + 1), sep);
                let prev = split(full.skip(i as int), sep);
                assert(prev =~~= seq![seq![full[i as int]].add(rest[0])].add(rest.drop_first()));
                assert(views_of(old_done).add(seq![old_cur.add(prev[0])].add(prev.drop_first()))
                    =~~= views_of(done@).add(seq![cur@.add(rest[0])].add(rest.drop_first())));
            }
        }
        i = i + 1;
    }
    let ghost final_done = done@;
    let ghost final_cur = cur@;
    done.push(cur);
    proof {
        assert(full.skip(i as int) =~= Seq::<u8>::empty());
        let rest = split(full.skip(i as int), sep);
        assert(rest =~~= seq![Seq::<u8>::empty()]);
        assert(views_of(final_done).add(seq![final_cur.add(rest[0])].add(rest.drop_first()))
            =~~= views_of(final_done).push(final_cur));
        assert(views_of(done@) =~~= views_of(final_done).push(final_cur));
        assert(views_of(done@) =~~= split(full, sep));
    }
    done
}

} // verus!
