use unicode_segmentation::UnicodeSegmentation;
use vstd::prelude::*;

verus! {

/// Where a scalar stands in its source text.
#[derive(Debug, Clone, Copy, PartialEq, Eq, Structural)]
pub struct PositionIndex {
    pub grapheme_offset: usize,
    pub scalar_offset: usize,
    pub byte_offset: usize,
    pub line_offset: usize,
    pub column_offset: usize,
}

/// One Unicode scalar with the position of the grapheme cluster it belongs to.
#[derive(Debug, Clone, Copy, PartialEq, Eq, Structural)]
pub struct FatChar {
    pub index: PositionIndex,
    pub value: char,
}

impl FatChar {
    pub fn new(index: PositionIndex, value: char) -> (r: FatChar)
        ensures
            r == (FatChar { index, value }),
    {
        FatChar { index, value }
    }
}

pub open spec fn zero_index() -> PositionIndex {
    PositionIndex {
        grapheme_offset: 0,
        scalar_offset: 0,
        byte_offset: 0,
        line_offset: 0,
        column_offset: 0,
    }
}

impl PositionIndex {
    /// The position of the start of a text.
    pub fn zero() -> (r: PositionIndex)
        ensures
            r == zero_index(),
    {
        PositionIndex {
            grapheme_offset: 0,
            scalar_offset: 0,
            byte_offset: 0,
            line_offset: 0,
            column_offset: 0,
        }
    }
}

/// The running position after one more scalar: a newline starts a line.
pub open spec fn advance_scalar(p: PositionIndex, c: char) -> PositionIndex {
    if c == '\n' {
        PositionIndex {
            scalar_offset: (p.scalar_offset + 1) as usize,
            line_offset: (p.line_offset + 1) as usize,
            column_offset: 0,
            ..p
        }
    } else {
        PositionIndex { scalar_offset: (p.scalar_offset + 1) as usize, ..p }
    }
}

pub open spec fn advance_scalars(p: PositionIndex, cs: Seq<char>) -> PositionIndex
    decreases cs.len(),
{
    if cs.len() == 0 {
        p
    } else {
        advance_scalar(advance_scalars(p, cs.drop_last()), cs.last())
    }
}

/// The position that every scalar of a cluster starting at byte `byte` carries.
pub open spec fn cluster_snapshot(p: PositionIndex, byte: usize) -> PositionIndex {
    PositionIndex { byte_offset: byte, ..p }
}

/// The running position once a whole cluster has been read.
pub open spec fn advance_cluster(p: PositionIndex, cluster: (usize, Seq<char>)) -> PositionIndex {
    let q = advance_scalars(cluster_snapshot(p, cluster.0), cluster.1);
    PositionIndex {
        grapheme_offset: (q.grapheme_offset + 1) as usize,
        column_offset: (q.column_offset + 1) as usize,
        ..q
    }
}

pub open spec fn position_after(clusters: Seq<(usize, Seq<char>)>) -> PositionIndex
    decreases clusters.len(),
{
    if clusters.len() == 0 {
        zero_index()
    } else {
        advance_cluster(position_after(clusters.drop_last()), clusters.last())
    }
}

pub open spec fn tag_all(at: PositionIndex, cs: Seq<char>) -> Seq<FatChar>
    decreases cs.len(),
{
    if cs.len() == 0 {
        seq![]
    } else {
        tag_all(at, cs.drop_last()).push(FatChar { index: at, value: cs.last() })
    }
}

/// The annotated scalars of a text split into clusters: each scalar is tagged with
/// the position at which its cluster starts.
pub open spec fn annotate(clusters: Seq<(usize, Seq<char>)>) -> Seq<FatChar>
    decreases clusters.len(),
{
    if clusters.len() == 0 {
        seq![]
    } else {
        let snap = cluster_snapshot(position_after(clusters.drop_last()), clusters.last().0);
        annotate(clusters.drop_last()) + tag_all(snap, clusters.last().1)
    }
}

pub open spec fn cluster_scalars(clusters: Seq<(usize, Seq<char>)>) -> Seq<Seq<char>> {
    clusters.map_values(|p: (usize, Seq<char>)| p.1)
}

pub open spec fn clusters_view(v: Seq<(usize, Vec<char>)>) -> Seq<(usize, Seq<char>)> {
    v.map_values(|p: (usize, Vec<char>)| (p.0, p.1@))
}

/// The extended grapheme clusters of a text, each with the byte offset at which it starts.
pub uninterp spec fn grapheme_split(s: Seq<char>) -> Seq<(usize, Seq<char>)>;

/// Relies on unicode_segmentation's `grapheme_indices(true)`: the extended grapheme
/// clusters in order, none empty, together spelling the text, each with its
/// starting byte offset, the first at 0 and the others after it.
#[verifier::external_body]
fn grapheme_clusters(s: &str) -> (r: Vec<(usize, Vec<char>)>)
    ensures
        clusters_view(r@) == grapheme_split(s@),
        cluster_scalars(clusters_view(r@)).flatten_alt() == s@,
        forall|i: int| 0 <= i < r@.len() ==> #[trigger] r@[i].1@.len() > 0,
        r@.len() > 0 ==> r@[0].0 == 0,
        forall|i: int, j: int| 0 <= i < j < r@.len() ==> r@[i].0 < r@[j].0,
{
    s.grapheme_indices(true).map(|(b, g)| (b, g.chars().collect())).collect()
}


/// The scalars of a sequence of annotated scalars.
pub open spec fn values_of(s: Seq<FatChar>) -> Seq<char>
    decreases s.len(),
{
    if s.len() == 0 {
        seq![]
    } else {
        values_of(s.drop_last()).push(s.last().value)
    }
}

pub proof fn lemma_values_of(s: Seq<FatChar>)
    ensures
        values_of(s).len() == s.len(),
        forall|i: int| 0 <= i < s.len() ==> #[trigger] values_of(s)[i] == s[i].value,
    decreases s.len(),
{
    if s.len() > 0 {
        lemma_values_of(s.drop_last());
    }
}

/// Byte, scalar, grapheme and line offsets of `a` are at most those of `b`.
pub open spec fn offsets_le(a: PositionIndex, b: PositionIndex) -> bool {
    &&& a.byte_offset <= b.byte_offset
    &&& a.scalar_offset <= b.scalar_offset
    &&& a.grapheme_offset <= b.grapheme_offset
    &&& a.line_offset <= b.line_offset
}

/// Offsets never decrease along the scalars.
pub open spec fn offsets_ordered(r: Seq<FatChar>) -> bool {
    forall|i: int, j: int| 0 <= i <= j < r.len() ==> offsets_le(#[trigger] r[i].index, #[trigger] r[j].index)
}

/// Scalars of one grapheme cluster (the same grapheme offset) carry one index.
pub open spec fn clusters_atomic(r: Seq<FatChar>) -> bool {
    forall|i: int, j: int|
        0 <= i < r.len() && 0 <= j < r.len() && #[trigger] r[i].index.grapheme_offset
            == #[trigger] r[j].index.grapheme_offset ==> r[i].index == r[j].index
}

/// Where a scalar starts a later line than the one before it, its column is 1:
/// the column restarts at 0 on the line break and counts the cluster that holds it.
pub open spec fn columns_restart(r: Seq<FatChar>) -> bool {
    forall|i: int|
        0 < i < r.len() && #[trigger] r[i].index.line_offset > r[i - 1].index.line_offset
            ==> r[i].index.column_offset == 1
}

proof fn lemma_flatten_prefix_len(s: Seq<Seq<char>>, i: int)
    requires
        0 <= i <= s.len(),
    ensures
        s.take(i).flatten_alt().len() <= s.flatten_alt().len(),
    decreases s.len(),
{
    if i < s.len() {
        lemma_flatten_prefix_len(s.drop_last(), i);
        assert(s.drop_last().take(i) =~= s.take(i));
    } else {
        assert(s.take(i) =~= s);
    }
}

proof fn lemma_flatten_take_step(cl: Seq<(usize, Seq<char>)>, i: int)
    requires
        0 <= i < cl.len(),
    ensures
        cluster_scalars(cl.take(i + 1)).flatten_alt() == cluster_scalars(cl.take(i)).flatten_alt()
            + cl[i].1,
        cluster_scalars(cl.take(i)) == cluster_scalars(cl).take(i),
        cluster_scalars(cl.take(i + 1)) == cluster_scalars(cl).take(i + 1),
{
    assert(cluster_scalars(cl.take(i + 1)).drop_last() =~= cluster_scalars(cl.take(i)));
    assert(cluster_scalars(cl.take(i)) =~= cluster_scalars(cl).take(i));
    assert(cluster_scalars(cl.take(i + 1)) =~= cluster_scalars(cl).take(i + 1));
}

/// Appends the scalars of one cluster, each tagged with `snap`, and returns the
/// running position after them.
fn push_cluster(out: &mut Vec<FatChar>, snap: PositionIndex, cs: &Vec<char>) -> (pos: PositionIndex)
    requires
        old(out)@.len() + cs@.len() < usize::MAX,
        snap.scalar_offset == old(out)@.len(),
        snap.line_offset <= old(out)@.len(),
    ensures
        final(out)@ == old(out)@ + tag_all(snap, cs@),
        final(out)@.len() == old(out)@.len() + cs@.len(),
        values_of(final(out)@) == values_of(old(out)@) + cs@,
        pos == advance_scalars(snap, cs@),
        pos.scalar_offset == final(out)@.len(),
        pos.line_offset <= final(out)@.len(),
        pos.grapheme_offset == snap.grapheme_offset,
        pos.byte_offset == snap.byte_offset,
        pos.column_offset <= snap.column_offset,
        pos.line_offset >= snap.line_offset,
        pos.line_offset > snap.line_offset ==> pos.column_offset == 0,
        pos.line_offset == snap.line_offset ==> pos.column_offset == snap.column_offset,
        forall|k: int| 0 <= k < old(out)@.len() ==> #[trigger] final(out)@[k] == old(out)@[k],
        forall|k: int|
            old(out)@.len() <= k < final(out)@.len() ==> (#[trigger] final(out)@[k]).index == snap,
{
    let ghost start = out@;
    let mut pos = snap;
    let mut j: usize = 0;
    proof {
        assert(cs@.take(0) =~= seq![]);
        assert(out@ =~= start + tag_all(snap, cs@.take(0)));
        assert(values_of(out@) =~= values_of(start) + cs@.take(0));
    }
    while j < cs.len()
        invariant
            0 <= j <= cs@.len(),
            start.len() + cs@.len() < usize::MAX,
            snap.scalar_offset == start.len(),
            out@ == start + tag_all(snap, cs@.take(j as int)),
            out@.len() == start.len() + j,
            values_of(out@) == values_of(start) + cs@.take(j as int),
            pos == advance_scalars(snap, cs@.take(j as int)),
            pos.scalar_offset == out@.len(),
            pos.line_offset <= out@.len(),
            pos.grapheme_offset == snap.grapheme_offset,
            pos.byte_offset == snap.byte_offset,
            pos.column_offset <= snap.column_offset,
            pos.line_offset >= snap.line_offset,
            pos.line_offset > snap.line_offset ==> pos.column_offset == 0,
            pos.line_offset == snap.line_offset ==> pos.column_offset == snap.column_offset,
            forall|k: int| 0 <= k < start.len() ==> #[trigger] out@[k] == start[k],
            forall|k: int| start.len() <= k < out@.len() ==> (#[trigger] out@[k]).index == snap,
        decreases cs@.len() - j,
    {
        let c = cs[j];
        let ghost before = out@;
        out.push(FatChar::new(snap, c));
        pos.scalar_offset = pos.scalar_offset + 1;
        if c == '\n' {
            pos.line_offset = pos.line_offset + 1;
            pos.column_offset = 0;
        }
        j = j + 1;
        proof {
            assert(cs@.take(j as int).drop_last() =~= cs@.take(j as int - 1));
            assert(cs@.take(j as int).last() == c);
            assert(out@ =~= start + tag_all(snap, cs@.take(j as int)));
            assert(out@.drop_last() =~= before);
            assert(values_of(out@) =~= values_of(start) + cs@.take(j as int));
        }
    }
    proof {
        assert(cs@.take(j as int) =~= cs@);
    }
    pos
}

/// Everything already emitted is at or before `p`, and before byte `last_byte`.
pub open spec fn emitted_before(out: Seq<FatChar>, p: PositionIndex, last_byte: usize) -> bool {
    forall|a: int|
        0 <= a < out.len() ==> {
            &&& (#[trigger] out[a]).index.grapheme_offset < p.grapheme_offset
            &&& out[a].index.scalar_offset <= p.scalar_offset
            &&& out[a].index.line_offset <= p.line_offset
            &&& out[a].index.byte_offset <= last_byte
        }
}

/// Appending one cluster's scalars, all tagged with `snap`, keeps the order,
/// the atomicity and the column rule.
proof fn lemma_cluster_step(
    old_out: Seq<FatChar>,
    out: Seq<FatChar>,
    snap: PositionIndex,
    p: PositionIndex,
    last_byte: usize,
    byte: usize,
)
    requires
        offsets_ordered(old_out),
        clusters_atomic(old_out),
        columns_restart(old_out),
        emitted_before(old_out, snap, last_byte),
        old_out.len() > 0 ==> last_byte < byte,
        old_out.len() > 0 && snap.line_offset > old_out.last().index.line_offset
            ==> snap.column_offset == 1,
        snap.byte_offset == byte,
        out.len() > old_out.len(),
        forall|k: int| 0 <= k < old_out.len() ==> #[trigger] out[k] == old_out[k],
        forall|k: int| old_out.len() <= k < out.len() ==> (#[trigger] out[k]).index == snap,
        p.scalar_offset >= snap.scalar_offset,
        p.line_offset >= snap.line_offset,
        p.grapheme_offset == snap.grapheme_offset + 1,
        p.line_offset > snap.line_offset ==> p.column_offset == 1,
    ensures
        offsets_ordered(out),
        clusters_atomic(out),
        columns_restart(out),
        emitted_before(out, p, byte),
        p.line_offset > out.last().index.line_offset ==> p.column_offset == 1,
{
    let n0 = old_out.len() as int;
    assert forall|a: int, b: int| 0 <= a <= b < out.len() implies offsets_le(
        #[trigger] out[a].index,
        #[trigger] out[b].index,
    ) by {
        if b >= n0 {
            assert(out[b].index == snap);
            if a < n0 {
                assert(out[a] == old_out[a]);
            }
        } else {
            assert(out[a] == old_out[a]);
            assert(out[b] == old_out[b]);
        }
    }
    assert forall|a: int, b: int|
        0 <= a < out.len() && 0 <= b < out.len() && #[trigger] out[a].index.grapheme_offset
            == #[trigger] out[b].index.grapheme_offset implies out[a].index == out[b].index by {
        if a < n0 {
            assert(out[a] == old_out[a]);
        }
        if b < n0 {
            assert(out[b] == old_out[b]);
        }
    }
    assert forall|a: int|
        0 < a < out.len() && #[trigger] out[a].index.line_offset > out[a - 1].index.line_offset
            implies out[a].index.column_offset == 1 by {
        if a < n0 {
            assert(out[a] == old_out[a]);
            assert(out[a - 1] == old_out[a - 1]);
        } else if a > n0 {
            assert(out[a].index == snap);
            assert(out[a - 1].index == snap);
        } else {
            assert(out[a - 1] == old_out[a - 1]);
        }
    }
    assert forall|a: int| 0 <= a < out.len() implies {
        &&& (#[trigger] out[a]).index.grapheme_offset < p.grapheme_offset
        &&& out[a].index.scalar_offset <= p.scalar_offset
        &&& out[a].index.line_offset <= p.line_offset
        &&& out[a].index.byte_offset <= byte
    } by {
        if a < n0 {
            assert(out[a] == old_out[a]);
        } else {
            assert(out[a].index == snap);
        }
    }
    assert(out.last().index == snap);
}

/// Splits a text into annotated scalars, cluster by cluster: every scalar of a
/// cluster carries the position at which the cluster starts.
pub fn to_fat_chars(source: &str) -> (r: Vec<FatChar>)
    requires
        source@.len() < usize::MAX,
    ensures
        r@ == annotate(grapheme_split(source@)),
        offsets_ordered(r@),
        clusters_atomic(r@),
        columns_restart(r@),
        values_of(r@) == source@,
        r@.len() == source@.len(),
        r@.len() > 0 ==> r@[0].index == zero_index(),
{
    let clusters = grapheme_clusters(source);
    let ghost cl = clusters_view(clusters@);
    let mut out: Vec<FatChar> = Vec::new();
    let mut pos = PositionIndex::zero();
    let mut i: usize = 0;
    let ghost mut last_byte: usize = 0;
    proof {
        assert(cl.take(0) =~= seq![]);
        assert(cluster_scalars(cl.take(0)) =~= seq![]);
    }
    while i < clusters.len()
        invariant
            cl == clusters_view(clusters@),
            cl.len() == clusters@.len(),
            cl == grapheme_split(source@),
            cluster_scalars(cl).flatten_alt() == source@,
            source@.len() < usize::MAX,
            forall|k: int| 0 <= k < clusters@.len() ==> #[trigger] clusters@[k].1@.len() > 0,
            0 <= i <= clusters@.len(),
            out@ == annotate(cl.take(i as int)),
            pos == position_after(cl.take(i as int)),
            out@.len() == cluster_scalars(cl.take(i as int)).flatten_alt().len(),
            pos.scalar_offset == out@.len(),
            pos.grapheme_offset <= out@.len(),
            pos.line_offset <= out@.len(),
            pos.column_offset <= pos.grapheme_offset,
            forall|a: int, b: int| 0 <= a < b < clusters@.len() ==> clusters@[a].0 < clusters@[b].0,
            i == 0 ==> out@.len() == 0,
            clusters@.len() > 0 ==> clusters@[0].0 == 0,
            values_of(out@) == cluster_scalars(cl.take(i as int)).flatten_alt(),
            out@.len() > 0 ==> out@[0].index == zero_index(),
            i > 0 ==> last_byte == clusters@[i - 1].0,
            offsets_ordered(out@),
            clusters_atomic(out@),
            columns_restart(out@),
            emitted_before(out@, pos, last_byte),
            out@.len() > 0 && pos.line_offset > out@.last().index.line_offset ==> pos.column_offset
                == 1,
        decreases clusters@.len() - i,
    {
        let byte = clusters[i].0;
        let cs = &clusters[i].1;
        proof {
            lemma_flatten_take_step(cl, i as int);
            lemma_flatten_prefix_len(cluster_scalars(cl), i as int + 1);
            assert(cl[i as int] == (byte, cs@));
            assert(clusters@[i as int].1@.len() > 0);
        }
        let snap = PositionIndex { byte_offset: byte, ..pos };
        let ghost old_out = out@;
        pos = push_cluster(&mut out, snap, cs);
        proof {
            if old_out.len() > 0 {
                assert(out@[0] == old_out[0]);
            } else {
                assert(out@[0].index == snap);
            }
        }
        proof {
            if i > 0 {
                assert(clusters@[i - 1].0 < clusters@[i as int].0);
            }
        }
        pos.grapheme_offset = pos.grapheme_offset + 1;
        pos.column_offset = pos.column_offset + 1;
        proof {
            lemma_cluster_step(old_out, out@, snap, pos, last_byte, byte);
            last_byte = byte;
        }
        i = i + 1;
        proof {
            assert(cl.take(i as int).drop_last() =~= cl.take(i as int - 1));
        }
    }
    proof {
        assert(cl.take(i as int) =~= cl);
        lemma_values_of(out@);
    }
    out
}

} // verus!
