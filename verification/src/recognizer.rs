//! Path-pattern compiler and matcher.
//!
//! A pattern string is a `/`-delimited list of segments; a segment starting
//! with `:` names a parameter, one starting with `*` names a trailing
//! catch-all that binds all remaining path segments joined by `/`. Empty
//! segments (from leading, trailing or doubled slashes) are dropped, in
//! patterns and in paths alike, so `/a/b`, `a/b` and `/a//b/` all split into
//! the same two segments.

use vstd::prelude::*;

use crate::errors::Error;
use vstd::string::StringSliceAdditionalSpecFns;

verus! {

/// Byte value of `/`.
pub const SLASH: u8 = 47;

/// Byte value of `:`, the named-parameter marker.
pub const COLON: u8 = 58;

/// Byte value of `*`, the catch-all marker.
pub const STAR: u8 = 42;

/// One compiled pattern segment.
#[derive(Debug)]
pub enum Segment {
    Literal(Vec<u8>),
    Param(Vec<u8>),
    CatchAll(Vec<u8>),
}

/// Mathematical model of a segment.
pub enum SegView {
    Lit(Seq<u8>),
    Param(Seq<u8>),
    CatchAll(Seq<u8>),
}

impl View for Segment {
    type V = SegView;

    open spec fn view(&self) -> SegView {
        match self {
            Segment::Literal(v) => SegView::Lit(v@),
            Segment::Param(v) => SegView::Param(v@),
            Segment::CatchAll(v) => SegView::CatchAll(v@),
        }
    }
}

/// The views of a sequence of compiled segments.
pub open spec fn seg_views(v: Seq<Segment>) -> Seq<SegView> {
    v.map_values(|s: Segment| s@)
}

/// The views of a sequence of byte vectors.
pub open spec fn bytes_views(v: Seq<Vec<u8>>) -> Seq<Seq<u8>> {
    v.map_values(|x: Vec<u8>| x@)
}

/// The views of a sequence of byte-pair bindings.
pub open spec fn pairs_view(v: Seq<(Vec<u8>, Vec<u8>)>) -> Seq<(Seq<u8>, Seq<u8>)> {
    v.map_values(|p: (Vec<u8>, Vec<u8>)| (p.0@, p.1@))
}

/// A compiled pattern: the ordered segments of the pattern string.
#[derive(Debug)]
pub struct Pattern {
    pub segments: Vec<Segment>,
}

impl View for Pattern {
    type V = Seq<SegView>;

    open spec fn view(&self) -> Seq<SegView> {
        seg_views(self.segments@)
    }
}

/// Splitting on `/`, carrying the segment read so far: empty segments are
/// dropped.
pub open spec fn spec_split_acc(s: Seq<u8>, cur: Seq<u8>) -> Seq<Seq<u8>>
    decreases s.len(),
{
    if s.len() == 0 {
        if cur.len() == 0 {
            Seq::empty()
        } else {
            seq![cur]
        }
    } else if s[0] == SLASH {
        if cur.len() == 0 {
            spec_split_acc(s.drop_first(), Seq::empty())
        } else {
            seq![cur] + spec_split_acc(s.drop_first(), Seq::empty())
        }
    } else {
        spec_split_acc(s.drop_first(), cur.push(s[0]))
    }
}

/// The nonempty `/`-delimited segments of `s`, in order.
pub open spec fn spec_split(s: Seq<u8>) -> Seq<Seq<u8>> {
    spec_split_acc(s, Seq::empty())
}

/// How one raw segment reads as a pattern segment: a leading `:` names a
/// parameter, a leading `*` a catch-all, anything else is a literal.
pub open spec fn spec_classify(seg: Seq<u8>) -> SegView {
    if seg.len() > 0 && seg[0] == COLON {
        SegView::Param(seg.drop_first())
    } else if seg.len() > 0 && seg[0] == STAR {
        SegView::CatchAll(seg.drop_first())
    } else {
        SegView::Lit(seg)
    }
}

/// The segments a pattern string compiles to, before validity is judged.
pub open spec fn spec_pattern_of(s: Seq<u8>) -> Seq<SegView> {
    spec_split(s).map_values(|seg: Seq<u8>| spec_classify(seg))
}

/// The parameter name a segment binds, if any.
pub open spec fn spec_seg_name(v: SegView) -> Option<Seq<u8>> {
    match v {
        SegView::Lit(_) => None::<Seq<u8>>,
        SegView::Param(n) => Some(n),
        SegView::CatchAll(n) => Some(n),
    }
}

/// A single segment is acceptable: a bare marker (empty parameter name) is
/// malformed.
pub open spec fn spec_seg_ok(v: SegView) -> bool {
    match v {
        SegView::Lit(_) => true,
        SegView::Param(n) => n.len() > 0,
        SegView::CatchAll(n) => n.len() > 0,
    }
}

/// A whole pattern is well-formed: every segment acceptable, a catch-all
/// only in the last position, and no parameter name bound twice.
pub open spec fn spec_pattern_wf(segs: Seq<SegView>) -> bool {
    &&& forall|i: int| 0 <= i < segs.len() ==> spec_seg_ok(#[trigger] segs[i])
    &&& forall|i: int|
        0 <= i < segs.len() ==> ((#[trigger] segs[i]) is CatchAll ==> i == segs.len() - 1)
    &&& forall|i: int, j: int|
        0 <= i < j < segs.len() ==> !(spec_seg_name(#[trigger] segs[i]) is Some
            && spec_seg_name(segs[i]) == spec_seg_name(#[trigger] segs[j]))
}

/// The remaining path segments a catch-all binds, joined by `/`.
pub open spec fn spec_join(segs: Seq<Seq<u8>>) -> Seq<u8>
    decreases segs.len(),
{
    if segs.len() == 0 {
        Seq::empty()
    } else if segs.len() == 1 {
        segs[0]
    } else {
        segs[0] + seq![SLASH] + spec_join(segs.drop_first())
    }
}

/// What matching pattern segments against path segments yields: `None` on
/// any disagreement, otherwise the (name, value) bindings in pattern order.
/// A literal must equal the path segment exactly; a parameter binds the
/// segment verbatim; a catch-all, legal only as the last pattern segment,
/// binds the one or more remaining segments joined by `/`.
pub open spec fn spec_match_segs(ps: Seq<SegView>, ss: Seq<Seq<u8>>) -> Option<
    Seq<(Seq<u8>, Seq<u8>)>,
>
    decreases ps.len(),
{
    if ps.len() == 0 {
        if ss.len() == 0 {
            Some(Seq::<(Seq<u8>, Seq<u8>)>::empty())
        } else {
            None::<Seq<(Seq<u8>, Seq<u8>)>>
        }
    } else {
        match ps[0] {
            SegView::Lit(l) => {
                if ss.len() > 0 && ss[0] == l {
                    spec_match_segs(ps.drop_first(), ss.drop_first())
                } else {
                    None::<Seq<(Seq<u8>, Seq<u8>)>>
                }
            },
            SegView::Param(n) => {
                if ss.len() > 0 {
                    match spec_match_segs(ps.drop_first(), ss.drop_first()) {
                        Some(bs) => Some(seq![(n, ss[0])] + bs),
                        None => None::<Seq<(Seq<u8>, Seq<u8>)>>,
                    }
                } else {
                    None::<Seq<(Seq<u8>, Seq<u8>)>>
                }
            },
            SegView::CatchAll(n) => {
                if ps.len() == 1 && ss.len() > 0 {
                    Some(seq![(n, spec_join(ss))])
                } else {
                    None::<Seq<(Seq<u8>, Seq<u8>)>>
                }
            },
        }
    }
}

/// Matching a compiled pattern against a path string.
pub open spec fn spec_match(ps: Seq<SegView>, path: Seq<u8>) -> Option<Seq<(Seq<u8>, Seq<u8>)>> {
    spec_match_segs(ps, spec_split(path))
}

/// Splits a byte string into its nonempty `/`-delimited segments.
pub fn split_segments(s: &[u8]) -> (r: Vec<Vec<u8>>)
    ensures
        bytes_views(r@) == spec_split(s@),
{
    let mut segs: Vec<Vec<u8>> = Vec::new();
    let mut cur: Vec<u8> = Vec::new();
    let mut i: usize = 0;
    proof {
        assert(s@.subrange(0, s@.len() as int) =~= s@);
        assert(cur@ =~= Seq::<u8>::empty());
        assert(bytes_views(segs@) =~~= Seq::<Seq<u8>>::empty());
        assert(bytes_views(segs@) + spec_split_acc(s@, cur@) =~~= spec_split_acc(s@, cur@));
    }
    while i < s.len()
        invariant
            i <= s@.len(),
            spec_split(s@) == bytes_views(segs@) + spec_split_acc(
                s@.subrange(i as int, s@.len() as int),
                cur@,
            ),
        decreases s@.len() - i,
    {
        proof {
            assert(s@.subrange(i as int, s@.len() as int).drop_first() =~= s@.subrange(
                i as int + 1,
                s@.len() as int,
            ));
            assert(s@.subrange(i as int, s@.len() as int)[0] == s@[i as int]);
        }
        if s[i] == SLASH {
            if cur.len() > 0 {
                let ghost old_segs = bytes_views(segs@);
                let ghost old_cur = cur@;
                segs.push(cur);
                cur = Vec::new();
                proof {
                    assert(cur@ =~= Seq::<u8>::empty());
                    assert(bytes_views(segs@) =~~= old_segs.push(old_cur));
                    assert(old_segs + (seq![old_cur] + spec_split_acc(
                        s@.subrange(i as int + 1, s@.len() as int),
                        Seq::empty(),
                    )) =~~= bytes_views(segs@) + spec_split_acc(
                        s@.subrange(i as int + 1, s@.len() as int),
                        Seq::empty(),
                    ));
                }
            } else {
                proof {
                    assert(cur@ =~= Seq::<u8>::empty());
                }
            }
        } else {
            cur.push(s[i]);
        }
        i += 1;
    }
    proof {
        assert(s@.subrange(i as int, s@.len() as int) =~= Seq::<u8>::empty());
    }
    if cur.len() > 0 {
        let ghost old_segs = bytes_views(segs@);
        let ghost old_cur = cur@;
        segs.push(cur);
        proof {
            assert(bytes_views(segs@) =~~= old_segs.push(old_cur));
            assert(old_segs + seq![old_cur] =~~= old_segs.push(old_cur));
        }
    } else {
        proof {
            assert(cur@ =~= Seq::<u8>::empty());
            assert(bytes_views(segs@) + Seq::<Seq<u8>>::empty() =~~= bytes_views(segs@));
        }
    }
    segs
}

/// Copies a byte vector.
pub(crate) fn copy_bytes(v: &Vec<u8>) -> (r: Vec<u8>)
    ensures
        r@ == v@,
{
    let mut r: Vec<u8> = Vec::new();
    let mut i: usize = 0;
    while i < v.len()
        invariant
            i <= v@.len(),
            r@ == v@.subrange(0, i as int),
        decreases v@.len() - i,
    {
        r.push(v[i]);
        proof {
            assert(v@.subrange(0, i as int).push(v@[i as int]) =~= v@.subrange(0, i as int + 1));
        }
        i += 1;
    }
    proof {
        assert(v@.subrange(0, v@.len() as int) =~= v@);
    }
    r
}

/// Copies a byte vector without its first byte.
fn tail_of(v: &Vec<u8>) -> (r: Vec<u8>)
    requires
        v@.len() >= 1,
    ensures
        r@ == v@.drop_first(),
{
    let mut r: Vec<u8> = Vec::new();
    let mut i: usize = 1;
    while i < v.len()
        invariant
            1 <= i <= v@.len(),
            r@ == v@.subrange(1, i as int),
        decreases v@.len() - i,
    {
        r.push(v[i]);
        proof {
            assert(v@.subrange(1, i as int).push(v@[i as int]) =~= v@.subrange(1, i as int + 1));
        }
        i += 1;
    }
    proof {
        assert(v@.subrange(1, v@.len() as int) =~= v@.drop_first());
    }
    r
}

/// Classifies one raw segment.
fn classify_segment(seg: &Vec<u8>) -> (r: Segment)
    ensures
        r@ == spec_classify(seg@),
{
    if seg.len() > 0 && seg[0] == COLON {
        Segment::Param(tail_of(seg))
    } else if seg.len() > 0 && seg[0] == STAR {
        Segment::CatchAll(tail_of(seg))
    } else {
        Segment::Literal(copy_bytes(seg))
    }
}

/// Whether two byte strings are equal.
pub fn bytes_eq(a: &[u8], b: &[u8]) -> (r: bool)
    ensures
        r == (a@ == b@),
{
    if a.len() != b.len() {
        return false;
    }
    let mut i: usize = 0;
    while i < a.len()
        invariant
            i <= a@.len(),
            a@.len() == b@.len(),
            forall|k: int| 0 <= k < i ==> a@[k] == b@[k],
        decreases a@.len() - i,
    {
        if a[i] != b[i] {
            return false;
        }
        i += 1;
    }
    proof {
        assert(a@ =~= b@);
    }
    true
}

/// The name bound by a compiled segment, if any.
fn seg_name_of(s: &Segment) -> (r: Option<&Vec<u8>>)
    ensures
        match r {
            Some(n) => spec_seg_name(s@) == Some(n@),
            None => spec_seg_name(s@) is None,
        },
{
    match s {
        Segment::Literal(_) => None,
        Segment::Param(n) => Some(n),
        Segment::CatchAll(n) => Some(n),
    }
}

/// Whether `name` is already bound by one of `segs`.
fn name_clash(segs: &Vec<Segment>, name: &Vec<u8>) -> (r: bool)
    ensures
        r == exists|j: int|
            0 <= j < segs@.len() && spec_seg_name(#[trigger] seg_views(segs@)[j]) == Some(name@),
{
    let mut j: usize = 0;
    while j < segs.len()
        invariant
            j <= segs@.len(),
            forall|k: int|
                0 <= k < j ==> spec_seg_name(#[trigger] seg_views(segs@)[k]) != Some(name@),
        decreases segs@.len() - j,
    {
        match seg_name_of(&segs[j]) {
            Some(n) => {
                if bytes_eq(n.as_slice(), name.as_slice()) {
                    assert(spec_seg_name(seg_views(segs@)[j as int]) == Some(name@));
                    return true;
                }
            },
            None => {},
        }
        j += 1;
    }
    false
}

/// Compiles a pattern string. Returns the compiled pattern exactly when the
/// pattern is well-formed; a bare marker, a duplicate parameter name, or a
/// catch-all anywhere but last yields `Error::InvalidConfig`.
pub fn compile(pattern: &str) -> (r: Result<Pattern, Error>)
    ensures
        r is Ok <==> spec_pattern_wf(spec_pattern_of(pattern.spec_bytes())),
        r matches Ok(p) ==> p@ == spec_pattern_of(pattern.spec_bytes()),
        r is Err ==> (r matches Err(e) && e is InvalidConfig),
{
    let bytes = pattern.as_bytes();
    let raw: Vec<Vec<u8>> = split_segments(bytes);
    let ghost target = spec_pattern_of(pattern.spec_bytes());
    let n = raw.len();
    let mut segs: Vec<Segment> = Vec::new();
    let mut idx: usize = 0;
    proof {
        assert(target =~~= bytes_views(raw@).map_values(|seg: Seq<u8>| spec_classify(seg)));
        assert(target.len() == n);
        assert(seg_views(segs@) =~~= target.subrange(0, 0));
    }
    while idx < n
        invariant
            idx <= n,
            n == raw@.len(),
            target.len() == n,
            target == spec_pattern_of(pattern.spec_bytes()),
            target == bytes_views(raw@).map_values(|seg: Seq<u8>| spec_classify(seg)),
            seg_views(segs@).len() == idx,
            seg_views(segs@) == target.subrange(0, idx as int),
            forall|i: int| 0 <= i < idx ==> spec_seg_ok(#[trigger] target[i]),
            forall|i: int| 0 <= i < idx ==> ((#[trigger] target[i]) is CatchAll ==> i == idx - 1),
            forall|i: int, j: int|
                0 <= i < j < idx ==> !(spec_seg_name(#[trigger] target[i]) is Some && spec_seg_name(
                    target[i],
                ) == spec_seg_name(#[trigger] target[j])),
        decreases n - idx,
    {
        let ghost placed = idx as int;
        proof {
            assert(target[placed] == spec_classify(bytes_views(raw@)[placed]));
            assert(bytes_views(raw@)[placed] == raw@[placed]@);
        }
        let seg = classify_segment(&raw[idx]);
        // a catch-all already placed may not be followed by anything
        if idx > 0 {
            let is_glob = match &segs[idx - 1] {
                Segment::CatchAll(_) => true,
                _ => false,
            };
            if is_glob {
                proof {
                    assert(seg_views(segs@)[placed - 1] is CatchAll);
                    assert(target[placed - 1] is CatchAll);
                    assert(placed - 1 < target.len() - 1);
                    assert(!spec_pattern_wf(target));
                }
                return Err(Error::InvalidConfig);
            }
            proof {
                assert(seg_views(segs@)[placed - 1] == target[placed - 1]);
                assert(!(target[placed - 1] is CatchAll));
            }
        }
        // a bare marker has an empty name
        let bad = match &seg {
            Segment::Literal(_) => false,
            Segment::Param(nm) => nm.len() == 0,
            Segment::CatchAll(nm) => nm.len() == 0,
        };
        if bad {
            proof {
                assert(!spec_seg_ok(target[placed]));
                assert(!spec_pattern_wf(target));
            }
            return Err(Error::InvalidConfig);
        }
        // a parameter name may not be bound twice
        let clash = match seg_name_of(&seg) {
            Some(nm) => {
                let c = name_clash(&segs, nm);
                proof {
                    if c {
                        let j = choose|j: int|
                            0 <= j < segs@.len() && spec_seg_name(#[trigger] seg_views(segs@)[j])
                                == Some(nm@);
                        assert(seg_views(segs@)[j] == target[j]);
                        assert(spec_seg_name(target[j]) == spec_seg_name(target[placed]));
                        assert(spec_seg_name(target[j]) is Some);
                        assert(!spec_pattern_wf(target));
                    } else {
                        assert forall|i: int|
                            0 <= i < placed implies spec_seg_name(#[trigger] target[i])
                            != spec_seg_name(target[placed]) by {
                            assert(seg_views(segs@)[i] == target[i]);
                        }
                    }
                }
                c
            },
            None => false,
        };
        if clash {
            return Err(Error::InvalidConfig);
        }
        let ghost old_views = seg_views(segs@);
        segs.push(seg);
        proof {
            assert(seg_views(segs@) =~~= old_views.push(target[placed]));
            assert(seg_views(segs@) =~~= target.subrange(0, placed + 1));
            assert forall|i: int|
                0 <= i < idx + 1 && (#[trigger] target[i]) is CatchAll implies i == idx by {
                if i < placed {
                    assert(i == placed - 1);
                }
            }
            assert forall|i: int, j: int|
                0 <= i < j < idx + 1 && spec_seg_name(#[trigger] target[i]) is Some
                    && spec_seg_name(target[i]) == spec_seg_name(
                    #[trigger] target[j],
                ) implies false by {
                if j == placed {
                    assert(spec_seg_name(target[placed]) is Some);
                    assert(spec_seg_name(target[i]) != spec_seg_name(target[placed]));
                }
            }
        }
        idx += 1;
    }
    proof {
        assert(seg_views(segs@) =~~= target);
        assert(spec_pattern_wf(target));
    }
    Ok(Pattern { segments: segs })
}

/// Appending one more segment to a join adds a `/` and the segment.
proof fn lemma_join_snoc(ss: Seq<Seq<u8>>, from: int, k: int)
    requires
        0 <= from <= k < ss.len(),
    ensures
        spec_join(ss.subrange(from, k + 1)) == if k == from {
            ss[k]
        } else {
            spec_join(ss.subrange(from, k)) + seq![SLASH] + ss[k]
        },
    decreases k - from,
{
    if k == from {
        assert(ss.subrange(from, k + 1) =~~= seq![ss[k]]);
        assert(spec_join(seq![ss[k]]) == ss[k]);
    } else {
        lemma_join_snoc(ss, from + 1, k);
        assert(ss.subrange(from, k + 1).drop_first() =~~= ss.subrange(from + 1, k + 1));
        assert(ss.subrange(from, k).drop_first() =~~= ss.subrange(from + 1, k));
        assert(ss.subrange(from, k + 1).len() >= 2);
        assert(ss.subrange(from, k + 1)[0] == ss[from]);
        if k == from + 1 {
            assert(spec_join(ss.subrange(from, k)) == ss[from]);
        } else {
            assert(spec_join(ss.subrange(from, k)) == ss[from] + seq![SLASH] + spec_join(
                ss.subrange(from + 1, k),
            ));
        }
        assert(ss[from] + seq![SLASH] + (spec_join(ss.subrange(from + 1, k)) + seq![SLASH] + ss[k])
            =~= (ss[from] + seq![SLASH] + spec_join(ss.subrange(from + 1, k))) + seq![SLASH]
            + ss[k]);
    }
}

/// Joins the path segments from `from` on with `/`, as a catch-all binds
/// them.
fn join_from(ss: &Vec<Vec<u8>>, from: usize) -> (r: Vec<u8>)
    requires
        from < ss@.len(),
    ensures
        r@ == spec_join(bytes_views(ss@).subrange(from as int, ss@.len() as int)),
{
    let n = ss.len();
    let ghost sv = bytes_views(ss@);
    let mut r: Vec<u8> = copy_bytes(&ss[from]);
    proof {
        assert(sv.subrange(from as int, from as int + 1) =~~= seq![sv[from as int]]);
        assert(r@ == spec_join(sv.subrange(from as int, from as int + 1)));
    }
    let mut k: usize = from + 1;
    while k < n
        invariant
            from < k <= n,
            n == ss@.len(),
            sv == bytes_views(ss@),
            r@ == spec_join(sv.subrange(from as int, k as int)),
        decreases n - k,
    {
        r.push(SLASH);
        let seg = &ss[k];
        let ghost base = r@;
        let mut i2: usize = 0;
        while i2 < seg.len()
            invariant
                i2 <= seg@.len(),
                r@ == base + seg@.subrange(0, i2 as int),
            decreases seg@.len() - i2,
        {
            r.push(seg[i2]);
            proof {
                assert(base + seg@.subrange(0, i2 as int + 1) =~= (base + seg@.subrange(
                    0,
                    i2 as int,
                )).push(seg@[i2 as int]));
            }
            i2 += 1;
        }
        proof {
            assert(seg@.subrange(0, seg@.len() as int) =~= seg@);
            assert(sv[k as int] == seg@);
            lemma_join_snoc(sv, from as int, k as int);
            assert(base =~= spec_join(sv.subrange(from as int, k as int)) + seq![SLASH]);
            assert(r@ =~= spec_join(sv.subrange(from as int, k as int)) + seq![SLASH] + seg@);
        }
        k += 1;
    }
    r
}

/// Matches a compiled pattern against pre-split path segments, as
/// `spec_match_segs` states.
pub fn match_segments(p: &Pattern, ss: &Vec<Vec<u8>>) -> (r: Option<Vec<(Vec<u8>, Vec<u8>)>>)
    ensures
        match r {
            Some(bs) => spec_match_segs(p@, bytes_views(ss@)) == Some(pairs_view(bs@)),
            None => spec_match_segs(p@, bytes_views(ss@)) is None,
        },
{
    let ghost pv = p@;
    let ghost sv = bytes_views(ss@);
    let plen = p.segments.len();
    let slen = ss.len();
    let mut binds: Vec<(Vec<u8>, Vec<u8>)> = Vec::new();
    let mut i: usize = 0;
    proof {
        assert(pv.subrange(0, pv.len() as int) =~~= pv);
        assert(sv.subrange(0, sv.len() as int) =~~= sv);
        if spec_match_segs(pv, sv) is Some {
            let bs = spec_match_segs(pv, sv).unwrap();
            assert(pairs_view(binds@) + bs =~~= bs);
        }
    }
    while i < plen
        invariant
            i <= pv.len(),
            i <= sv.len(),
            pv == p@,
            sv == bytes_views(ss@),
            plen == pv.len(),
            slen == sv.len(),
            spec_match_segs(pv, sv) == (match spec_match_segs(
                pv.subrange(i as int, pv.len() as int),
                sv.subrange(i as int, sv.len() as int),
            ) {
                Some(bs) => Some(pairs_view(binds@) + bs),
                None => None::<Seq<(Seq<u8>, Seq<u8>)>>,
            }),
        decreases pv.len() - i,
    {
        let ghost prest = pv.subrange(i as int, pv.len() as int);
        proof {
            assert(prest[0] == pv[i as int]);
            assert(prest.drop_first() =~~= pv.subrange(i as int + 1, pv.len() as int));
        }
        match &p.segments[i] {
            Segment::Literal(l) => {
                proof {
                    assert(pv[i as int] matches SegView::Lit(x) && x == l@);
                }
                if i >= slen {
                    proof {
                        assert(sv.subrange(i as int, sv.len() as int).len() == 0);
                    }
                    return None;
                }
                let ghost srest = sv.subrange(i as int, sv.len() as int);
                proof {
                    assert(srest[0] == sv[i as int]);
                    assert(sv[i as int] == ss@[i as int]@);
                    assert(srest.drop_first() =~~= sv.subrange(i as int + 1, sv.len() as int));
                }
                if !bytes_eq(l.as_slice(), ss[i].as_slice()) {
                    proof {
                        assert(spec_match_segs(prest, srest) is None);
                    }
                    return None;
                }
                proof {
                    assert(srest[0] == l@);
                    assert(spec_match_segs(prest, srest) == spec_match_segs(
                        prest.drop_first(),
                        srest.drop_first(),
                    ));
                }
            },
            Segment::Param(nm) => {
                proof {
                    assert(pv[i as int] matches SegView::Param(x) && x == nm@);
                }
                if i >= slen {
                    proof {
                        assert(sv.subrange(i as int, sv.len() as int).len() == 0);
                    }
                    return None;
                }
                let ghost srest = sv.subrange(i as int, sv.len() as int);
                proof {
                    assert(srest[0] == sv[i as int]);
                    assert(sv[i as int] == ss@[i as int]@);
                    assert(srest.drop_first() =~~= sv.subrange(i as int + 1, sv.len() as int));
                }
                let key = copy_bytes(nm);
                let value = copy_bytes(&ss[i]);
                let ghost old_binds = pairs_view(binds@);
                binds.push((key, value));
                proof {
                    assert(pairs_view(binds@) =~~= old_binds.push((nm@, sv[i as int])));
                    if spec_match_segs(prest.drop_first(), srest.drop_first()) is Some {
                        let bs = spec_match_segs(prest.drop_first(), srest.drop_first()).unwrap();
                        assert(old_binds + (seq![(nm@, sv[i as int])] + bs) =~~= pairs_view(binds@)
                            + bs);
                    }
                }
            },
            Segment::CatchAll(nm) => {
                proof {
                    assert(pv[i as int] matches SegView::CatchAll(x) && x == nm@);
                }
                if i + 1 != plen || i >= slen {
                    proof {
                        if i >= slen {
                            assert(sv.subrange(i as int, sv.len() as int).len() == 0);
                            assert(spec_match_segs(
                                prest,
                                sv.subrange(i as int, sv.len() as int),
                            ) is None);
                        } else {
                            assert(prest.len() != 1);
                            assert(spec_match_segs(
                                prest,
                                sv.subrange(i as int, sv.len() as int),
                            ) is None);
                        }
                    }
                    return None;
                }
                let ghost srest = sv.subrange(i as int, sv.len() as int);
                let key = copy_bytes(nm);
                let joined = join_from(ss, i);
                let ghost old_binds = pairs_view(binds@);
                binds.push((key, joined));
                proof {
                    assert(srest.len() > 0 && prest.len() == 1);
                    assert(spec_match_segs(prest, srest) == Some(seq![(nm@, spec_join(srest))]));
                    assert(pairs_view(binds@) =~~= old_binds.push((nm@, spec_join(srest))));
                    assert(old_binds + seq![(nm@, spec_join(srest))] =~~= pairs_view(binds@));
                    assert(spec_match_segs(pv, sv) == Some(pairs_view(binds@)));
                }
                return Some(binds);
            },
        }
        i += 1;
    }
    proof {
        assert(pv.subrange(i as int, pv.len() as int).len() == 0);
    }
    if i != slen {
        proof {
            assert(spec_match_segs(pv, sv) is None);
        }
        return None;
    }
    proof {
        assert(sv.subrange(i as int, sv.len() as int).len() == 0);
        assert(pairs_view(binds@) + Seq::<(Seq<u8>, Seq<u8>)>::empty() =~~= pairs_view(binds@));
    }
    Some(binds)
}

/// The bindings a successful match yields: at each parameter position the
/// parameter's name bound to the path's segment at that very position, and
/// at a final catch-all its name bound to the remaining segments joined by
/// `/` (with one segment remaining, that segment itself).
pub open spec fn spec_param_bindings(ps: Seq<SegView>, ss: Seq<Seq<u8>>) -> Seq<
    (Seq<u8>, Seq<u8>),
>
    decreases ps.len(),
{
    if ps.len() == 0 {
        Seq::<(Seq<u8>, Seq<u8>)>::empty()
    } else {
        match ps[0] {
            SegView::Lit(_) => spec_param_bindings(ps.drop_first(), ss.drop_first()),
            SegView::Param(n) => seq![(n, ss[0])] + spec_param_bindings(
                ps.drop_first(),
                ss.drop_first(),
            ),
            SegView::CatchAll(n) => seq![(n, spec_join(ss))],
        }
    }
}

/// For every pattern and every path with as many segments whose literal
/// segments equal the pattern's literal segments, the match succeeds and
/// binds each parameter exactly to the path's segment at the parameter's
/// position.
pub proof fn lemma_literals_agree_match_binds(ps: Seq<SegView>, ss: Seq<Seq<u8>>)
    requires
        ps.len() == ss.len(),
        forall|i: int|
            0 <= i < ps.len() ==> ((#[trigger] ps[i]) matches SegView::Lit(l) ==> ss[i] == l),
        forall|i: int| 0 <= i < ps.len() ==> ((#[trigger] ps[i]) is CatchAll ==> i == ps.len() - 1),
    ensures
        spec_match_segs(ps, ss) == Some(spec_param_bindings(ps, ss)),
    decreases ps.len(),
{
    if ps.len() == 0 {
    } else {
        let pd = ps.drop_first();
        let sd = ss.drop_first();
        assert(ps[0] == ps.first());
        match ps[0] {
            SegView::CatchAll(n) => {
                assert(ps[0] is CatchAll);
                assert(ps.len() == 1);
                assert(ss.len() == 1);
                assert(spec_join(ss) == ss[0]);
            },
            _ => {
                assert forall|i: int|
                    0 <= i < pd.len() implies ((#[trigger] pd[i]) matches SegView::Lit(l)
                    ==> sd[i] == l) && ((pd[i]) is CatchAll ==> i == pd.len() - 1) by {
                    assert(pd[i] == ps[i + 1]);
                    assert(sd[i] == ss[i + 1]);
                }
                lemma_literals_agree_match_binds(pd, sd);
            },
        }
    }
}

/// For every pattern ending in a catch-all and every path with at least as
/// many segments whose literal segments equal the pattern's literal
/// segments, the match succeeds: each parameter binds the path's segment at
/// its position and the catch-all binds the remaining segments joined by
/// `/`.
pub proof fn lemma_catch_all_binds_remainder(ps: Seq<SegView>, ss: Seq<Seq<u8>>)
    requires
        ps.len() >= 1,
        ss.len() >= ps.len(),
        ps[ps.len() - 1] is CatchAll,
        forall|i: int|
            0 <= i < ps.len() ==> ((#[trigger] ps[i]) matches SegView::Lit(l) ==> ss[i] == l),
        forall|i: int| 0 <= i < ps.len() ==> ((#[trigger] ps[i]) is CatchAll ==> i == ps.len() - 1),
    ensures
        spec_match_segs(ps, ss) == Some(spec_param_bindings(ps, ss)),
    decreases ps.len(),
{
    if ps.len() == 1 {
        assert(ps[0] is CatchAll);
        assert(ss.len() >= 1);
    } else {
        let pd = ps.drop_first();
        let sd = ss.drop_first();
        assert(!(ps[0] is CatchAll));
        assert(pd[pd.len() - 1] == ps[ps.len() - 1]);
        assert forall|i: int|
            0 <= i < pd.len() implies ((#[trigger] pd[i]) matches SegView::Lit(l) ==> sd[i] == l)
            && ((pd[i]) is CatchAll ==> i == pd.len() - 1) by {
            assert(pd[i] == ps[i + 1]);
            assert(sd[i] == ss[i + 1]);
        }
        lemma_catch_all_binds_remainder(pd, sd);
    }
}

/// A pattern without a catch-all never matches a path with a different
/// number of segments.
pub proof fn lemma_segment_count_mismatch(ps: Seq<SegView>, ss: Seq<Seq<u8>>)
    requires
        forall|i: int| 0 <= i < ps.len() ==> !((#[trigger] ps[i]) is CatchAll),
        ps.len() != ss.len(),
    ensures
        spec_match_segs(ps, ss) is None,
    decreases ps.len(),
{
    if ps.len() == 0 {
    } else {
        let pd = ps.drop_first();
        let sd = ss.drop_first();
        if ss.len() > 0 {
            assert forall|i: int| 0 <= i < pd.len() implies !((#[trigger] pd[i]) is CatchAll) by {
                assert(pd[i] == ps[i + 1]);
            }
            lemma_segment_count_mismatch(pd, sd);
        }
        assert(!(ps[0] is CatchAll));
    }
}

/// Matches a compiled pattern against a path string, as `spec_match`
/// states: `None` on any disagreement, otherwise the parameter bindings in
/// pattern order.
pub fn pattern_match(p: &Pattern, path: &str) -> (r: Option<Vec<(Vec<u8>, Vec<u8>)>>)
    ensures
        match r {
            Some(bs) => spec_match(p@, path.spec_bytes()) == Some(pairs_view(bs@)),
            None => spec_match(p@, path.spec_bytes()) is None,
        },
{
    let ss = split_segments(path.as_bytes());
    match_segments(p, &ss)
}

} // verus!
