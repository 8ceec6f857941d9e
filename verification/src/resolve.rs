//! Path normalization and sandboxing.
//!
//! A request path is a byte string whose segments are separated by `/`.
//! Normalization walks the segments left to right and keeps an accumulator:
//! a parent segment (`..`) pops the last accumulated segment (or is silently
//! discarded when the accumulator is empty), a current-directory segment
//! (`.`) and empty segments are discarded, and every other segment — a
//! literal name — is appended. Joining the document root with the
//! accumulated segments therefore always yields a path at or below the root,
//! however many `..` segments the request contains.
//!
//! No symlinks are resolved: a symlink inside the root that points outside
//! it is a known, accepted escape vector of this lexical scheme.

use vstd::prelude::*;

verus! {

/// The path separator byte, `b'/'`.
pub const SLASH: u8 = 47;

/// The dot byte, `b'.'`.
pub const DOT: u8 = 46;

/// A current-directory segment: a single dot.
pub open spec fn is_dot_segment(seg: Seq<u8>) -> bool {
    seg == seq![DOT]
}

/// A parent-directory segment: two dots.
pub open spec fn is_parent_segment(seg: Seq<u8>) -> bool {
    seg == seq![DOT, DOT]
}

/// A literal name segment: non-empty and neither `.` nor `..`.
pub open spec fn is_literal_segment(seg: Seq<u8>) -> bool {
    seg.len() > 0 && !is_dot_segment(seg) && !is_parent_segment(seg)
}

/// The segment contains no separator byte.
pub open spec fn no_slash(seg: Seq<u8>) -> bool {
    forall|i: int| 0 <= i < seg.len() ==> seg[i] != SLASH
}

/// The segments of a path, split at every separator byte.
///
/// Splitting the empty path yields one empty segment, and every separator
/// byte opens a new segment, so `/a//b` splits into ``["", "a", "", "b"]``.
pub open spec fn split_path(s: Seq<u8>) -> Seq<Seq<u8>>
    decreases s.len(),
{
    if s.len() == 0 {
        seq![Seq::<u8>::empty()]
    } else {
        let prev = split_path(s.drop_last());
        if s.last() == SLASH {
            prev.push(Seq::<u8>::empty())
        } else {
            prev.update(prev.len() - 1, prev.last().push(s.last()))
        }
    }
}

/// One step of normalization: fold the next segment into the accumulator.
pub open spec fn normalize_step(acc: Seq<Seq<u8>>, seg: Seq<u8>) -> Seq<Seq<u8>> {
    if is_parent_segment(seg) {
        if acc.len() == 0 {
            acc
        } else {
            acc.drop_last()
        }
    } else if is_literal_segment(seg) {
        acc.push(seg)
    } else {
        acc
    }
}

/// The accumulator after folding all segments, starting from empty.
pub open spec fn normalize_segments(segs: Seq<Seq<u8>>) -> Seq<Seq<u8>>
    decreases segs.len(),
{
    if segs.len() == 0 {
        Seq::<Seq<u8>>::empty()
    } else {
        normalize_step(normalize_segments(segs.drop_last()), segs.last())
    }
}

/// The normal form of a request path: its segments, split and folded.
pub open spec fn normal_form(s: Seq<u8>) -> Seq<Seq<u8>> {
    normalize_segments(split_path(s))
}

/// The segments joined below a root: each segment is preceded by one
/// separator byte, and no segments yield the empty suffix.
pub open spec fn joined_under(segs: Seq<Seq<u8>>) -> Seq<u8>
    decreases segs.len(),
{
    if segs.len() == 0 {
        Seq::<u8>::empty()
    } else {
        joined_under(segs.drop_last()) + seq![SLASH] + segs.last()
    }
}

/// The resolved filesystem path: the document root followed by the
/// normalized request path's segments.
pub open spec fn resolved_path(root: Seq<u8>, s: Seq<u8>) -> Seq<u8> {
    root + joined_under(normal_form(s))
}

/// Whether the segment is a parent-directory segment, `..`.
fn seg_is_parent(seg: &Vec<u8>) -> (r: bool)
    ensures
        r == is_parent_segment(seg@),
{
    let r = seg.len() == 2 && seg[0] == DOT && seg[1] == DOT;
    proof {
        if r {
            assert(seg@ =~= seq![DOT, DOT]);
        }
    }
    r
}

/// Whether the segment is a current-directory segment, `.`.
fn seg_is_dot(seg: &Vec<u8>) -> (r: bool)
    ensures
        r == is_dot_segment(seg@),
{
    let r = seg.len() == 1 && seg[0] == DOT;
    proof {
        if r {
            assert(seg@ =~= seq![DOT]);
        }
    }
    r
}

/// Fold one completed segment into the accumulator of normalized segments.
fn apply_segment(acc: &mut Vec<Vec<u8>>, seg: Vec<u8>)
    ensures
        final(acc).deep_view() == normalize_step(old(acc).deep_view(), seg@),
{
    proof {
        assert(seg.deep_view() =~= seg@);
    }
    if seg_is_parent(&seg) {
        if acc.len() > 0 {
            let _popped = acc.pop();
            proof {
                assert(acc.deep_view() =~~= old(acc).deep_view().drop_last());
            }
        }
    } else if seg.len() > 0 && !seg_is_dot(&seg) {
        let ghost seg_bytes = seg@;
        acc.push(seg);
        proof {
            assert(acc.deep_view() =~~= old(acc).deep_view().push(seg_bytes));
        }
    }
}

/// Normalize a request path into its sandboxed segment sequence.
///
/// The result is exactly the accumulator described at the top of this
/// module: `..` pops, `.` and empty segments are discarded, literal names
/// are appended.
pub fn normalize(uri: &[u8]) -> (segs: Vec<Vec<u8>>)
    ensures
        segs.deep_view() == normal_form(uri@),
{
    let mut acc: Vec<Vec<u8>> = Vec::new();
    let mut cur: Vec<u8> = Vec::new();
    let mut i: usize = 0;
    while i < uri.len()
        invariant
            i <= uri.len(),
            acc.deep_view() == normalize_segments(split_path(uri@.take(i as int)).drop_last()),
            cur@ == split_path(uri@.take(i as int)).last(),
        decreases uri.len() - i,
    {
        let ghost prev = split_path(uri@.take(i as int));
        proof {
            lemma_split_path_nonempty(uri@.take(i as int));
            assert(uri@.take(i + 1 as int).drop_last() =~= uri@.take(i as int));
        }
        let b = uri[i];
        if b == SLASH {
            proof {
                assert(prev.push(Seq::<u8>::empty()).drop_last() =~= prev);
            }
            apply_segment(&mut acc, cur);
            cur = Vec::new();
        } else {
            proof {
                assert(prev.update(prev.len() - 1, prev.last().push(b)).drop_last()
                    =~= prev.drop_last());
            }
            cur.push(b);
        }
        i = i + 1;
    }
    proof {
        assert(uri@.take(uri@.len() as int) =~= uri@);
        lemma_split_path_nonempty(uri@);
    }
    apply_segment(&mut acc, cur);
    acc
}

/// Resolve a request path below the document root.
///
/// The result is the root followed by `/seg` for each normalized segment;
/// with no segments left it is the root itself.
pub fn resolve(root: &[u8], uri: &[u8]) -> (p: Vec<u8>)
    ensures
        p@ == resolved_path(root@, uri@),
{
    let segs = normalize(uri);
    let mut p: Vec<u8> = Vec::new();
    let mut i: usize = 0;
    while i < root.len()
        invariant
            i <= root.len(),
            p@ == root@.take(i as int),
        decreases root.len() - i,
    {
        p.push(root[i]);
        i = i + 1;
    }
    proof {
        assert(p@ =~= root@);
        assert(segs.deep_view().take(0) =~= Seq::<Seq<u8>>::empty());
    }
    let mut k: usize = 0;
    while k < segs.len()
        invariant
            k <= segs.len(),
            segs.deep_view() == normal_form(uri@),
            p@ == root@ + joined_under(segs.deep_view().take(k as int)),
        decreases segs.len() - k,
    {
        p.push(SLASH);
        let ghost mid = p@;
        let mut j: usize = 0;
        while j < segs[k].len()
            invariant
                k < segs.len(),
                j <= segs.deep_view()[k as int].len(),
                segs.deep_view() == normal_form(uri@),
                p@ == mid + segs.deep_view()[k as int].take(j as int),
            decreases segs.deep_view()[k as int].len() - j,
        {
            p.push(segs[k][j]);
            proof {
                assert(segs.deep_view()[k as int].take(j + 1 as int)
                    =~= segs.deep_view()[k as int].take(j as int).push(segs@[k as int]@[j as int]));
            }
            j = j + 1;
        }
        proof {
            assert(segs.deep_view()[k as int].take(segs.deep_view()[k as int].len() as int)
                =~= segs.deep_view()[k as int]);
            assert(segs.deep_view().take(k + 1 as int).drop_last()
                =~= segs.deep_view().take(k as int));
            assert(p@ =~= root@ + joined_under(segs.deep_view().take(k + 1 as int)));
        }
        k = k + 1;
    }
    proof {
        assert(segs.deep_view().take(segs@.len() as int) =~= segs.deep_view());
    }
    p
}

/// Splitting always yields at least one segment.
proof fn lemma_split_path_nonempty(s: Seq<u8>)
    ensures
        split_path(s).len() >= 1,
    decreases s.len(),
{
    if s.len() > 0 {
        lemma_split_path_nonempty(s.drop_last());
    }
}

/// Splitting never yields a segment that contains a separator byte.
proof fn lemma_split_path_no_slash(s: Seq<u8>)
    ensures
        forall|j: int| 0 <= j < split_path(s).len() ==> no_slash(#[trigger] split_path(s)[j]),
    decreases s.len(),
{
    if s.len() > 0 {
        lemma_split_path_no_slash(s.drop_last());
        lemma_split_path_nonempty(s.drop_last());
        let prev = split_path(s.drop_last());
        if s.last() == SLASH {
            assert forall|j: int| 0 <= j < split_path(s).len() implies no_slash(
                #[trigger] split_path(s)[j],
            ) by {
                if j < prev.len() {
                    assert(split_path(s)[j] == prev[j]);
                }
            }
        } else {
            let w = prev.last().push(s.last());
            assert(no_slash(w));
            assert forall|j: int| 0 <= j < split_path(s).len() implies no_slash(
                #[trigger] split_path(s)[j],
            ) by {
                if j != prev.len() - 1 {
                    assert(split_path(s)[j] == prev[j]);
                }
            }
        }
    }
}

/// Every normalized segment is a literal name without separator bytes.
proof fn lemma_normalize_segments_literal(segs: Seq<Seq<u8>>)
    requires
        forall|j: int| 0 <= j < segs.len() ==> no_slash(#[trigger] segs[j]),
    ensures
        forall|j: int| 0 <= j < normalize_segments(segs).len() ==> is_literal_segment(
            #[trigger] normalize_segments(segs)[j],
        ) && no_slash(normalize_segments(segs)[j]),
    decreases segs.len(),
{
    if segs.len() > 0 {
        assert forall|j: int| 0 <= j < segs.drop_last().len() implies no_slash(
            #[trigger] segs.drop_last()[j],
        ) by {
            assert(segs.drop_last()[j] == segs[j]);
        }
        lemma_normalize_segments_literal(segs.drop_last());
        let prev = normalize_segments(segs.drop_last());
        let seg = segs.last();
        assert forall|j: int| 0 <= j < normalize_segments(segs).len() implies is_literal_segment(
            #[trigger] normalize_segments(segs)[j],
        ) && no_slash(normalize_segments(segs)[j]) by {
            if is_parent_segment(seg) {
                assert(normalize_segments(segs)[j] == prev[j]);
            } else if is_literal_segment(seg) {
                if j < prev.len() {
                    assert(normalize_segments(segs)[j] == prev[j]);
                } else {
                    assert(normalize_segments(segs)[j] == seg);
                    assert(no_slash(seg));
                }
            } else {
                assert(normalize_segments(segs)[j] == prev[j]);
            }
        }
    }
}

/// Sandboxing law: the resolved path always stays at or below the document
/// root, however many `..` segments the request path contains.
///
/// The document root is a literal prefix of the resolved path; what follows
/// it is one `/seg` piece per normalized segment; and every such segment is
/// a literal name — never `..`, never `.`, never empty, and never one that
/// contains a separator byte — so the resolved path cannot lexically name
/// anything above the root. With no segments left, the resolved path is the
/// root itself.
pub proof fn lemma_resolved_within_root(root: Seq<u8>, s: Seq<u8>)
    ensures
        resolved_path(root, s) == root + joined_under(normal_form(s)),
        resolved_path(root, s).len() >= root.len(),
        resolved_path(root, s).take(root.len() as int) == root,
        forall|j: int| 0 <= j < normal_form(s).len() ==> is_literal_segment(
            #[trigger] normal_form(s)[j],
        ) && no_slash(normal_form(s)[j]),
        normal_form(s).len() == 0 ==> resolved_path(root, s) == root,
{
    lemma_split_path_no_slash(s);
    lemma_normalize_segments_literal(split_path(s));
    assert(resolved_path(root, s).take(root.len() as int) =~= root);
    if normal_form(s).len() == 0 {
        assert(resolved_path(root, s) =~= root);
    }
}

/// Appending a separator and a separator-free segment to a path appends one
/// segment to its split form.
proof fn lemma_split_append(x: Seq<u8>, w: Seq<u8>)
    requires
        no_slash(w),
    ensures
        split_path(x + seq![SLASH] + w) == split_path(x).push(w),
    decreases w.len(),
{
    lemma_split_path_nonempty(x);
    if w.len() == 0 {
        let s = x + seq![SLASH] + w;
        assert(s.last() == SLASH);
        assert(s.drop_last() =~= x);
        assert(split_path(s) =~~= split_path(x).push(w));
    } else {
        assert forall|j: int| 0 <= j < w.drop_last().len() implies w.drop_last()[j] != SLASH by {
            assert(w.drop_last()[j] == w[j]);
        }
        lemma_split_append(x, w.drop_last());
        let s = x + seq![SLASH] + w;
        let s0 = x + seq![SLASH] + w.drop_last();
        assert(s.drop_last() =~= s0);
        assert(s.last() == w[w.len() - 1]);
        assert(s.last() != SLASH);
        let prev = split_path(s0);
        assert(prev.last().push(s.last()) =~= w);
        assert(split_path(s) =~~= split_path(x).push(w));
    }
}

/// Splitting the joined form of separator-free segments yields one empty
/// leading segment followed by the segments themselves.
proof fn lemma_split_joined_under(segs: Seq<Seq<u8>>)
    requires
        forall|j: int| 0 <= j < segs.len() ==> no_slash(#[trigger] segs[j]),
    ensures
        split_path(joined_under(segs)) == seq![Seq::<u8>::empty()] + segs,
    decreases segs.len(),
{
    if segs.len() == 0 {
        assert(split_path(joined_under(segs)) =~~= seq![Seq::<u8>::empty()] + segs);
    } else {
        assert forall|j: int| 0 <= j < segs.drop_last().len() implies no_slash(
            #[trigger] segs.drop_last()[j],
        ) by {
            assert(segs.drop_last()[j] == segs[j]);
        }
        lemma_split_joined_under(segs.drop_last());
        lemma_split_append(joined_under(segs.drop_last()), segs.last());
        assert(split_path(joined_under(segs)) =~~= seq![Seq::<u8>::empty()] + segs);
    }
}

/// A leading empty segment is discarded by normalization.
proof fn lemma_normalize_prepend_empty(segs: Seq<Seq<u8>>)
    ensures
        normalize_segments(seq![Seq::<u8>::empty()] + segs) == normalize_segments(segs),
    decreases segs.len(),
{
    let e = seq![Seq::<u8>::empty()];
    if segs.len() == 0 {
        assert((e + segs) =~~= e);
        assert((e + segs).drop_last() =~~= Seq::<Seq<u8>>::empty());
        assert((e + segs).last() =~= Seq::<u8>::empty());
        assert(normalize_segments(Seq::<Seq<u8>>::empty()) == Seq::<Seq<u8>>::empty());
        assert(!is_parent_segment(Seq::<u8>::empty()));
        assert(!is_literal_segment(Seq::<u8>::empty()));
        assert(normalize_segments(e + segs) == normalize_step(
            normalize_segments((e + segs).drop_last()),
            (e + segs).last(),
        ));
    } else {
        lemma_normalize_prepend_empty(segs.drop_last());
        assert((e + segs).drop_last() =~~= e + segs.drop_last());
        assert((e + segs).last() == segs.last());
    }
}

/// Normalizing a sequence of literal segments changes nothing.
proof fn lemma_normalize_literal_fixpoint(segs: Seq<Seq<u8>>)
    requires
        forall|j: int| 0 <= j < segs.len() ==> is_literal_segment(#[trigger] segs[j]),
    ensures
        normalize_segments(segs) == segs,
    decreases segs.len(),
{
    if segs.len() > 0 {
        assert forall|j: int| 0 <= j < segs.drop_last().len() implies is_literal_segment(
            #[trigger] segs.drop_last()[j],
        ) by {
            assert(segs.drop_last()[j] == segs[j]);
        }
        lemma_normalize_literal_fixpoint(segs.drop_last());
        assert(is_literal_segment(segs.last()));
        assert(normalize_segments(segs) =~~= segs);
    }
}

/// Idempotence law: the resolver is a pure function of its input, and
/// applying it to its own output changes nothing. Joining the normalized
/// segments back into one path and normalizing again yields the same
/// segments, so the same resolved path under any document root.
pub proof fn lemma_resolver_idempotent(root: Seq<u8>, s: Seq<u8>)
    ensures
        normal_form(joined_under(normal_form(s))) == normal_form(s),
        resolved_path(root, joined_under(normal_form(s))) == resolved_path(root, s),
{
    lemma_split_path_no_slash(s);
    lemma_normalize_segments_literal(split_path(s));
    let n = normal_form(s);
    lemma_split_joined_under(n);
    lemma_normalize_prepend_empty(n);
    lemma_normalize_literal_fixpoint(n);
}

} // verus!
