//! The index codec: the ordered list of archived paths is serialized into one
//! special archive entry by joining the paths with a fixed multi-byte
//! separator, and deserialized back by splitting on the leftmost occurrence of
//! that separator.  Paths are raw bytes (UTF-8, forward-slash separated).

use vstd::prelude::*;

verus! {

/// The separator placed between paths in the serialized index entry: `|BVA|`.
pub open spec fn index_sep() -> Seq<u8> {
    seq![124u8, 66u8, 86u8, 65u8, 124u8]
}

/// The five separator bytes stand in `b` at position `i`.
pub open spec fn sep_at(b: Seq<u8>, i: int) -> bool {
    &&& 0 <= i
    &&& i + 5 <= b.len()
    &&& b[i] == 124u8
    &&& b[i + 1] == 66u8
    &&& b[i + 2] == 86u8
    &&& b[i + 3] == 65u8
    &&& b[i + 4] == 124u8
}

/// The separator occurs somewhere in `p`.
pub open spec fn contains_sep(p: Seq<u8>) -> bool {
    exists|i: int| sep_at(p, i)
}

/// `p` ends with `|BVA`, the four-byte head of the separator.  Such a tail
/// melts into the separator that follows it and shifts the leftmost separator
/// occurrence four bytes to the left, so decoding would cut the path short.
pub open spec fn ends_with_sep_head(p: Seq<u8>) -> bool {
    &&& p.len() >= 4
    &&& p[p.len() - 4] == 124u8
    &&& p[p.len() - 3] == 66u8
    &&& p[p.len() - 2] == 86u8
    &&& p[p.len() - 1] == 65u8
}

/// A path the index codec can carry without desynchronizing identifiers:
/// it neither contains the separator nor ends with the separator's head.
pub open spec fn index_safe_path(p: Seq<u8>) -> bool {
    !contains_sep(p) && !ends_with_sep_head(p)
}

/// The serialized index: the paths joined by the separator, unescaped.
pub open spec fn join_paths(paths: Seq<Seq<u8>>) -> Seq<u8>
    decreases paths.len(),
{
    if paths.len() == 0 {
        Seq::empty()
    } else if paths.len() == 1 {
        paths[0]
    } else {
        paths[0] + index_sep() + join_paths(paths.drop_first())
    }
}

/// Position of the leftmost separator occurrence at or after `i`, or -1.
pub open spec fn find_sep_from(b: Seq<u8>, i: int) -> int
    decreases b.len() - i,
{
    if i < 0 || i + 5 > b.len() {
        -1
    } else if sep_at(b, i) {
        i
    } else {
        find_sep_from(b, i + 1)
    }
}

/// Position of the leftmost separator occurrence in `b`, or -1.
pub open spec fn find_sep(b: Seq<u8>) -> int {
    find_sep_from(b, 0)
}

/// The decoded path list: `b` cut at each leftmost separator occurrence.
/// A blob with no separator decodes as a single path, so decoding never
/// yields an empty list.
pub open spec fn split_paths(b: Seq<u8>) -> Seq<Seq<u8>>
    decreases b.len(),
{
    let i = find_sep(b);
    if 0 <= i && i + 5 <= b.len() {
        seq![b.subrange(0, i)] + split_paths(b.subrange(i + 5, b.len() as int))
    } else {
        seq![b]
    }
}

/// What `find_sep_from` returns: -1 exactly when no occurrence lies at or
/// after `i`, otherwise the least occurrence position at or after `i`.
pub proof fn lemma_find_sep_from(b: Seq<u8>, i: int)
    requires
        0 <= i,
    ensures
        find_sep_from(b, i) == -1 || find_sep_from(b, i) >= i,
        find_sep_from(b, i) == -1 ==> forall|j: int| i <= j ==> !sep_at(b, j),
        find_sep_from(b, i) >= 0 ==> i <= find_sep_from(b, i) && sep_at(b, find_sep_from(b, i)),
        find_sep_from(b, i) >= 0 ==> forall|j: int| i <= j < find_sep_from(b, i) ==> !sep_at(b, j),
    decreases b.len() - i,
{
    if i + 5 > b.len() {
        assert forall|j: int| i <= j implies !sep_at(b, j) by {}
    } else if sep_at(b, i) {
    } else {
        lemma_find_sep_from(b, i + 1);
    }
}

/// If `m` is an occurrence and nothing at or after `i` before `m` is one,
/// then `m` is exactly what `find_sep_from` finds.
pub proof fn lemma_find_sep_exact(b: Seq<u8>, i: int, m: int)
    requires
        0 <= i <= m,
        sep_at(b, m),
        forall|j: int| i <= j < m ==> !sep_at(b, j),
    ensures
        find_sep_from(b, i) == m,
{
    lemma_find_sep_from(b, i);
    let r = find_sep_from(b, i);
    if r == -1 {
        assert(!sep_at(b, m));
        assert(false);
    } else if r < m {
        assert(!sep_at(b, r));
        assert(false);
    } else if r > m {
        assert(!sep_at(b, m));
        assert(false);
    }
}

/// Occurrences in a suffix of `b` are occurrences in `b`, shifted.
proof fn lemma_sep_at_shift(b: Seq<u8>, s: int, j: int)
    requires
        0 <= s <= b.len(),
        0 <= j,
    ensures
        sep_at(b.subrange(s, b.len() as int), j) == sep_at(b, s + j),
{
    let suf = b.subrange(s, b.len() as int);
    if 0 <= j && j + 5 <= suf.len() {
        assert(suf[j] == b[s + j]);
        assert(suf[j + 1] == b[s + j + 1]);
        assert(suf[j + 2] == b[s + j + 2]);
        assert(suf[j + 3] == b[s + j + 3]);
        assert(suf[j + 4] == b[s + j + 4]);
    }
}

/// Finding the first occurrence from `s` in `b` is finding it in the suffix
/// of `b` that starts at `s`.
pub proof fn lemma_find_sep_suffix(b: Seq<u8>, s: int)
    requires
        0 <= s <= b.len(),
    ensures
        find_sep_from(b, s) >= 0 ==> find_sep(b.subrange(s, b.len() as int)) == find_sep_from(b, s) - s,
        find_sep_from(b, s) == -1 ==> find_sep(b.subrange(s, b.len() as int)) == -1,
{
    let suf = b.subrange(s, b.len() as int);
    let r = find_sep_from(b, s);
    lemma_find_sep_from(b, s);
    lemma_find_sep_from(suf, 0);
    if r >= 0 {
        lemma_sep_at_shift(b, s, r - s);
        assert(sep_at(suf, r - s));
        assert forall|j: int| 0 <= j < r - s implies !sep_at(suf, j) by {
            lemma_sep_at_shift(b, s, j);
        }
        lemma_find_sep_exact(suf, 0, r - s);
    } else {
        let rs = find_sep(suf);
        if rs >= 0 {
            lemma_sep_at_shift(b, s, rs);
            assert(sep_at(b, s + rs));
            assert(false);
        }
    }
}

/// Joining from the back: the join of a non-empty list is the join of all but
/// the last path, the separator, and the last path.
pub proof fn lemma_join_last(paths: Seq<Seq<u8>>)
    requires
        paths.len() >= 2,
    ensures
        join_paths(paths) == join_paths(paths.drop_last()) + index_sep() + paths.last(),
    decreases paths.len(),
{
    let rest = paths.drop_first();
    if paths.len() == 2 {
        assert(rest.len() == 1);
        assert(join_paths(rest) == rest[0]);
        assert(paths.drop_last() =~= seq![paths[0]]);
        assert(join_paths(paths.drop_last()) == paths[0]);
        assert(rest[0] == paths.last());
    } else {
        lemma_join_last(rest);
        assert(join_paths(rest) == join_paths(rest.drop_last()) + index_sep() + rest.last());
        assert(rest.drop_last() =~= paths.drop_last().drop_first());
        assert(paths.drop_last().len() >= 2);
        assert(join_paths(paths.drop_last()) == paths.drop_last()[0] + index_sep() + join_paths(
            paths.drop_last().drop_first(),
        ));
        assert(paths.drop_last()[0] == paths[0]);
        assert(rest.last() == paths.last());
        assert(paths[0] + index_sep() + (join_paths(rest.drop_last()) + index_sep() + rest.last())
            =~= (paths[0] + index_sep() + join_paths(rest.drop_last())) + index_sep()
            + paths.last());
    }
}

/// Decoding inverts encoding: splitting the join of one or more safe paths
/// yields exactly those paths, element for element and in order.
pub proof fn lemma_split_of_join(paths: Seq<Seq<u8>>)
    requires
        paths.len() >= 1,
        forall|k: int| 0 <= k < paths.len() ==> index_safe_path(#[trigger] paths[k]),
    ensures
        split_paths(join_paths(paths)) == paths,
    decreases paths.len(),
{
    let b = join_paths(paths);
    if paths.len() == 1 {
        assert(b == paths[0]);
        assert(!contains_sep(b));
        lemma_find_sep_from(b, 0);
        if find_sep(b) >= 0 {
            assert(sep_at(b, find_sep(b)));
            assert(false);
        }
        assert(split_paths(b) =~= paths);
    } else {
        let p0 = paths[0];
        let rest = paths.drop_first();
        let rj = join_paths(rest);
        assert(b == p0 + index_sep() + rj);
        let m = p0.len() as int;
        assert(b.len() == m + 5 + rj.len());
        assert forall|t: int| 0 <= t < m implies b[t] == p0[t] by {}
        assert forall|j: int| 0 <= j < 5 implies b[m + j] == index_sep()[j] by {}
        assert(sep_at(b, m));
        assert forall|q: int| 0 <= q < m implies !sep_at(b, q) by {
            if sep_at(b, q) {
                if q + 5 <= m {
                    assert(sep_at(p0, q));
                    assert(contains_sep(p0));
                    assert(false);
                } else {
                    let k = m - q;
                    assert(1 <= k <= 4);
                    // position q + k is the first separator byte of the join
                    assert(b[q + k] == 124u8);
                    if k == 1 {
                        assert(b[q + 1] == 66u8);
                        assert(false);
                    } else if k == 2 {
                        assert(b[q + 2] == 86u8);
                        assert(false);
                    } else if k == 3 {
                        assert(b[q + 3] == 65u8);
                        assert(false);
                    } else {
                        assert(k == 4);
                        assert(p0[m - 4] == b[q] == 124u8);
                        assert(p0[m - 3] == b[q + 1] == 66u8);
                        assert(p0[m - 2] == b[q + 2] == 86u8);
                        assert(p0[m - 1] == b[q + 3] == 65u8);
                        assert(ends_with_sep_head(p0));
                        assert(false);
                    }
                }
            }
        }
        lemma_find_sep_exact(b, 0, m);
        assert(find_sep(b) == m);
        assert(split_paths(b) == seq![b.subrange(0, m)] + split_paths(
            b.subrange(m + 5, b.len() as int),
        ));
        assert(b.subrange(0, m) =~= p0);
        assert(b.subrange(m + 5, b.len() as int) =~= rj);
        assert forall|k: int| 0 <= k < rest.len() implies index_safe_path(#[trigger] rest[k]) by {
            assert(rest[k] == paths[k + 1]);
        }
        lemma_split_of_join(rest);
        assert(split_paths(b) =~= seq![p0] + rest);
        assert(seq![p0] + rest =~= paths);
    }
}

/// The deep view of a vector of byte vectors is the sequence of the element
/// views.
pub proof fn lemma_deep_view_bytes(v: &Vec<Vec<u8>>)
    ensures
        v.deep_view().len() == v@.len(),
        forall|k: int| 0 <= k < v@.len() ==> v.deep_view()[k] == v@[k]@,
{
    assert forall|k: int| 0 <= k < v@.len() implies v.deep_view()[k] == v@[k]@ by {
        assert(v@[k].deep_view() =~= v@[k]@);
    }
}

/// Copies `b[lo..hi]` into a fresh vector.
pub fn copy_range(b: &Vec<u8>, lo: usize, hi: usize) -> (r: Vec<u8>)
    requires
        lo <= hi <= b@.len(),
    ensures
        r@ == b@.subrange(lo as int, hi as int),
{
    let mut out: Vec<u8> = Vec::new();
    let mut i: usize = lo;
    while i < hi
        invariant
            lo <= i <= hi <= b@.len(),
            out@ == b@.subrange(lo as int, i as int),
        decreases hi - i,
    {
        out.push(b[i]);
        proof {
            assert(out@ =~= b@.subrange(lo as int, i + 1 as int));
        }
        i += 1;
    }
    out
}

/// Copies a whole byte vector.
pub fn clone_bytes(b: &Vec<u8>) -> (r: Vec<u8>)
    ensures
        r@ == b@,
{
    let r = copy_range(b, 0, b.len());
    proof {
        assert(b@.subrange(0, b@.len() as int) =~= b@);
    }
    r
}

/// Two byte vectors hold the same bytes.
pub fn bytes_eq(a: &Vec<u8>, b: &Vec<u8>) -> (r: bool)
    ensures
        r == (a@ == b@),
{
    if a.len() != b.len() {
        proof {
            assert(a@.len() != b@.len());
        }
        return false;
    }
    let mut i: usize = 0;
    while i < a.len()
        invariant
            i <= a@.len(),
            a@.len() == b@.len(),
            forall|j: int| 0 <= j < i ==> a@[j] == b@[j],
        decreases a@.len() - i,
    {
        if a[i] != b[i] {
            return false;
        }
        i += 1;
    }
    proof {
        assert(a@ =~= b@);
    }
    true
}

/// Whether the codec can carry `p` without desynchronizing identifiers.
pub fn is_index_safe_path(p: &Vec<u8>) -> (r: bool)
    ensures
        r == index_safe_path(p@),
{
    match find_sep_in(p, 0) {
        Some(k) => {
            proof {
                lemma_find_sep_from(p@, 0);
                assert(sep_at(p@, k as int));
            }
            return false;
        },
        None => {
            proof {
                lemma_find_sep_from(p@, 0);
                if contains_sep(p@) {
                    let i = choose|i: int| sep_at(p@, i);
                    assert(!sep_at(p@, i));
                    assert(false);
                }
            }
        },
    }
    if p.len() >= 4 {
        let n = p.len();
        if p[n - 4] == 124 && p[n - 3] == 66 && p[n - 2] == 86 && p[n - 1] == 65 {
            proof {
                assert(ends_with_sep_head(p@));
            }
            return false;
        }
    }
    true
}

/// Serializes the path list: the paths joined by the separator.
pub fn encode_index(paths: &Vec<Vec<u8>>) -> (r: Vec<u8>)
    ensures
        r@ == join_paths(paths.deep_view()),
{
    let ghost dv = paths.deep_view();
    proof {
        lemma_deep_view_bytes(paths);
    }
    let mut out: Vec<u8> = Vec::new();
    let mut i: usize = 0;
    while i < paths.len()
        invariant
            i <= paths@.len(),
            dv == paths.deep_view(),
            dv.len() == paths@.len(),
            forall|k: int| 0 <= k < dv.len() ==> dv[k] == paths@[k]@,
            out@ == join_paths(dv.take(i as int)),
        decreases paths@.len() - i,
    {
        if i > 0 {
            out.push(124);
            out.push(66);
            out.push(86);
            out.push(65);
            out.push(124);
        }
        let p = &paths[i];
        let mut j: usize = 0;
        while j < p.len()
            invariant
                j <= p@.len(),
                p@ == paths@[i as int]@,
                i < paths@.len(),
                out@ == if i == 0 {
                    p@.subrange(0, j as int)
                } else {
                    join_paths(dv.take(i as int)) + index_sep() + p@.subrange(0, j as int)
                },
            decreases p@.len() - j,
        {
            out.push(p[j]);
            proof {
                assert(p@.subrange(0, j + 1 as int) =~= p@.subrange(0, j as int).push(p@[j as int]));
                if i == 0 {
                    assert(out@ =~= p@.subrange(0, j + 1 as int));
                } else {
                    assert(out@ =~= join_paths(dv.take(i as int)) + index_sep() + p@.subrange(
                        0,
                        j + 1 as int,
                    ));
                }
            }
            j += 1;
        }
        proof {
            assert(p@.subrange(0, p@.len() as int) =~= dv[i as int]);
            let t1 = dv.take(i + 1 as int);
            assert(t1.drop_last() =~= dv.take(i as int));
            assert(t1.last() == dv[i as int]);
            if i == 0 {
                assert(t1.len() == 1);
                assert(join_paths(t1) == t1[0]);
                assert(out@ =~= join_paths(t1));
            } else {
                lemma_join_last(t1);
                assert(out@ =~= join_paths(t1));
            }
        }
        i += 1;
    }
    proof {
        assert(dv.take(paths@.len() as int) =~= dv);
    }
    out
}

/// Finds the leftmost separator occurrence at or after `from`.
pub fn find_sep_in(b: &Vec<u8>, from: usize) -> (r: Option<usize>)
    requires
        from <= b@.len(),
    ensures
        match r {
            Some(k) => from <= k && k + 5 <= b@.len() && find_sep_from(b@, from as int) == k as int,
            None => find_sep_from(b@, from as int) == -1,
        },
{
    if b.len() < 5 {
        proof {
            lemma_find_sep_from(b@, from as int);
            if find_sep_from(b@, from as int) >= 0 {
                assert(sep_at(b@, find_sep_from(b@, from as int)));
                assert(false);
            }
        }
        return None;
    }
    let mut i: usize = from;
    while i <= b.len() - 5
        invariant
            from <= i,
            i <= b@.len(),
            b@.len() >= 5,
            forall|j: int| from <= j < i ==> !sep_at(b@, j),
        decreases b@.len() - i,
    {
        if b[i] == 124 && b[i + 1] == 66 && b[i + 2] == 86 && b[i + 3] == 65 && b[i + 4] == 124 {
            proof {
                assert(sep_at(b@, i as int));
                lemma_find_sep_exact(b@, from as int, i as int);
            }
            return Some(i);
        }
        proof {
            assert(!sep_at(b@, i as int));
        }
        i += 1;
    }
    proof {
        lemma_find_sep_from(b@, from as int);
        let r = find_sep_from(b@, from as int);
        if r >= 0 {
            assert(sep_at(b@, r));
            assert(r + 5 <= b@.len());
            assert(from <= r < i);
            assert(false);
        }
    }
    None
}

/// Deserializes an index blob back into its path list.
pub fn decode_index(b: &Vec<u8>) -> (r: Vec<Vec<u8>>)
    ensures
        r.deep_view() == split_paths(b@),
{
    let mut out: Vec<Vec<u8>> = Vec::new();
    let mut start: usize = 0;
    proof {
        assert(b@.subrange(0, b@.len() as int) =~= b@);
    }
    loop
        invariant
            start <= b@.len(),
            split_paths(b@) == out.deep_view() + split_paths(
                b@.subrange(start as int, b@.len() as int),
            ),
        decreases b@.len() - start,
    {
        let ghost suf = b@.subrange(start as int, b@.len() as int);
        match find_sep_in(b, start) {
            Some(k) => {
                let piece = copy_range(b, start, k);
                proof {
                    lemma_find_sep_suffix(b@, start as int);
                    assert(find_sep(suf) == k - start);
                    assert(split_paths(suf) == seq![suf.subrange(0, k - start as int)]
                        + split_paths(suf.subrange(k - start + 5, suf.len() as int)));
                    assert(suf.subrange(0, k - start as int) =~= b@.subrange(start as int, k as int));
                    assert(suf.subrange(k - start + 5, suf.len() as int) =~= b@.subrange(
                        k + 5 as int,
                        b@.len() as int,
                    ));
                }
                let ghost old_dv = out.deep_view();
                let ghost tail = split_paths(b@.subrange(k + 5 as int, b@.len() as int));
                proof {
                    lemma_deep_view_bytes(&out);
                }
                out.push(piece);
                proof {
                    lemma_deep_view_bytes(&out);
                    assert(out.deep_view() =~= old_dv.push(b@.subrange(start as int, k as int)));
                    assert(out.deep_view() + tail =~= old_dv + (seq![
                        b@.subrange(start as int, k as int),
                    ] + tail));
                }
                let n = b.len();
                proof {
                    assert(k + 5 <= n);
                }
                start = k + 5;
            },
            None => {
                let piece = copy_range(b, start, b.len());
                proof {
                    lemma_find_sep_suffix(b@, start as int);
                    assert(find_sep(suf) == -1);
                    assert(split_paths(suf) =~= seq![suf]);
                }
                let ghost old_dv = out.deep_view();
                proof {
                    lemma_deep_view_bytes(&out);
                }
                out.push(piece);
                proof {
                    lemma_deep_view_bytes(&out);
                    assert(out.deep_view() =~= old_dv + seq![suf]);
                }
                return out;
            },
        }
    }
}

} // verus!
