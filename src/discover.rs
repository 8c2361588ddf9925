//! Choosing and ordering the input files of one format. Each file is known
//! by the bytes of its path and by the format its extension gives; files
//! are visited in lexicographic order of their paths.
use crate::suite::Format;
use vstd::prelude::*;

verus! {

/// Strict lexicographic order on byte strings.
pub open spec fn lex_lt(a: Seq<u8>, b: Seq<u8>) -> bool
    decreases a.len(),
{
    if a.len() == 0 {
        b.len() > 0
    } else if b.len() == 0 {
        false
    } else if a[0] != b[0] {
        a[0] < b[0]
    } else {
        lex_lt(a.drop_first(), b.drop_first())
    }
}

/// Of two byte strings, one precedes the other or they are equal, and
/// never both precede each other.
pub proof fn lemma_lex_total(a: Seq<u8>, b: Seq<u8>)
    ensures
        lex_lt(a, b) || lex_lt(b, a) || a == b,
        !(lex_lt(a, b) && lex_lt(b, a)),
    decreases a.len(),
{
    if a.len() > 0 && b.len() > 0 && a[0] == b[0] {
        lemma_lex_total(a.drop_first(), b.drop_first());
        if a.drop_first() == b.drop_first() {
            assert(a =~= seq![a[0]] + a.drop_first());
            assert(b =~= seq![b[0]] + b.drop_first());
        }
    }
}

/// Whether `a` precedes `b`.
pub fn precedes(a: &[u8], b: &[u8]) -> (r: bool)
    ensures
        r == lex_lt(a@, b@),
{
    let mut i: usize = 0;
    assert(a@.skip(0) =~= a@ && b@.skip(0) =~= b@);
    while i < a.len() && i < b.len() && a[i] == b[i]
        invariant
            0 <= i <= a@.len(),
            i <= b@.len(),
            lex_lt(a@, b@) == lex_lt(a@.skip(i as int), b@.skip(i as int)),
        decreases a@.len() - i,
    {
        proof {
            let (x, y) = (a@.skip(i as int), b@.skip(i as int));
            assert(x.drop_first() =~= a@.skip(i + 1));
            assert(y.drop_first() =~= b@.skip(i + 1));
        }
        i = i + 1;
    }
    if i < a.len() && i < b.len() {
        a[i] < b[i]
    } else {
        i == a.len() && i < b.len()
    }
}

/// `order` lists indices into `files` in non-decreasing order of path.
pub open spec fn ordered_by_path(files: Seq<(Vec<u8>, Option<Format>)>, order: Seq<usize>) -> bool {
    forall|k: int|
        #![trigger order[k]]
        0 <= k < order.len() - 1 ==> !lex_lt(files[order[k + 1] as int].0@, files[order[k] as int].0@)
}

/// The indices of the files of format `f`, each once, in order of path.
pub fn files_of_format(files: &Vec<(Vec<u8>, Option<Format>)>, f: Format) -> (r: Vec<usize>)
    ensures
        r@.no_duplicates(),
        forall|i: int| 0 <= i < r@.len() ==> r@[i] < files@.len(),
        forall|i: usize|
            #![trigger r@.contains(i)]
            r@.contains(i) <==> i < files@.len() && files@[i as int].1 == Some(f),
        ordered_by_path(files@, r@),
{
    let mut r: Vec<usize> = Vec::new();
    let mut i: usize = 0;
    while i < files.len()
        invariant
            0 <= i <= files@.len(),
            r@.no_duplicates(),
            forall|k: int| 0 <= k < r@.len() ==> r@[k] < i,
            forall|j: usize|
                #![trigger r@.contains(j)]
                r@.contains(j) <==> j < i && files@[j as int].1 == Some(f),
            ordered_by_path(files@, r@),
        decreases files@.len() - i,
    {
        let is_f = match files[i].1 {
            Some(g) => g == f,
            None => false,
        };
        if is_f {
            let key = files[i].0.as_slice();
            let mut p: usize = 0;
            while p < r.len() && !precedes(key, files[r[p]].0.as_slice())
                invariant
                    0 <= p <= r@.len(),
                    i < files@.len(),
                    key@ == files@[i as int].0@,
                    forall|k: int| 0 <= k < r@.len() ==> r@[k] < i,
                    p > 0 ==> !lex_lt(key@, files@[r@[p - 1] as int].0@),
                decreases r@.len() - p,
            {
                p = p + 1;
            }
            let ghost old_r = r@;
            proof {
                if p < r@.len() {
                    lemma_lex_total(key@, files@[r@[p as int] as int].0@);
                }
                assert forall|k: int| 0 <= k < old_r.len() implies old_r[k] != i by {}
            }
            r.insert(p, i);
            proof {
                assert forall|k: int| 0 <= k < r@.len() implies r@[k] < i + 1 by {
                    if k < p {
                        assert(r@[k] == old_r[k]);
                    } else if k > p {
                        assert(r@[k] == old_r[k - 1]);
                    }
                }
                assert forall|a: int, b: int|
                    0 <= a < r@.len() && 0 <= b < r@.len() && a != b implies r@[a] != r@[b] by {
                    if a != p && b != p {
                        let a0 = if a < p { a } else { a - 1 };
                        let b0 = if b < p { b } else { b - 1 };
                        assert(r@[a] == old_r[a0] && r@[b] == old_r[b0]);
                    } else if a == p {
                        let b0 = if b < p { b } else { b - 1 };
                        assert(r@[b] == old_r[b0]);
                    } else {
                        let a0 = if a < p { a } else { a - 1 };
                        assert(r@[a] == old_r[a0]);
                    }
                }
                assert forall|j: usize|
                    #![trigger r@.contains(j)]
                    r@.contains(j) <==> j < i + 1 && files@[j as int].1 == Some(f) by {
                    if r@.contains(j) {
                        let k = choose|k: int| 0 <= k < r@.len() && r@[k] == j;
                        if k < p {
                            assert(old_r[k] == j);
                            assert(old_r.contains(j));
                        } else if k > p {
                            assert(old_r[k - 1] == j);
                            assert(old_r.contains(j));
                        } else {
                            assert(r@[p as int] == i);
                        }
                    }
                    if j < i + 1 && files@[j as int].1 == Some(f) {
                        if j == i {
                            assert(r@[p as int] == j);
                        } else {
                            assert(old_r.contains(j));
                            let k = choose|k: int| 0 <= k < old_r.len() && old_r[k] == j;
                            if k < p {
                                assert(r@[k] == j);
                            } else {
                                assert(r@[k + 1] == j);
                            }
                        }
                    }
                }
                assert forall|k: int|
                    #![trigger r@[k]]
                    0 <= k < r@.len() - 1 implies !lex_lt(
                    files@[r@[k + 1] as int].0@,
                    files@[r@[k] as int].0@,
                ) by {
                    if k + 1 < p {
                        assert(r@[k] == old_r[k] && r@[k + 1] == old_r[k + 1]);
                    } else if k + 1 == p {
                        assert(r@[k] == old_r[k]);
                    } else if k == p {
                        assert(r@[k + 1] == old_r[k]);
                    } else {
                        assert(r@[k] == old_r[k - 1] && r@[k + 1] == old_r[k]);
                    }
                }
            }
        } else {
            proof {
                assert forall|j: usize|
                    #![trigger r@.contains(j)]
                    r@.contains(j) <==> j < i + 1 && files@[j as int].1 == Some(f) by {
                    if r@.contains(j) {
                        let k = choose|k: int| 0 <= k < r@.len() && r@[k] == j;
                    }
                }
            }
        }
        i = i + 1;
    }
    r
}

} // verus!
