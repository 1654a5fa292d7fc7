use vstd::prelude::*;

verus! {

/// Side length of the square painted for each highlighted element.
pub const MARKER_SIZE: i64 = 10;

/// Screen-space extents of one element, as the geometry query reports them.
#[derive(Clone, Copy, Debug, PartialEq, Eq, Structural)]
pub struct BoundingBox {
    pub x: i32,
    pub y: i32,
    pub width: i32,
    pub height: i32,
}

/// An axis-aligned square to paint, from (left, top) to (right, bottom).
#[derive(Clone, Copy, Debug, PartialEq, Eq, Structural)]
pub struct Marker {
    pub left: i64,
    pub top: i64,
    pub right: i64,
    pub bottom: i64,
}

/// The marker anchored at the top-left corner of a box.
pub open spec fn marker_of(b: BoundingBox) -> Marker {
    Marker {
        left: b.x as i64,
        top: b.y as i64,
        right: (b.x + MARKER_SIZE) as i64,
        bottom: (b.y + MARKER_SIZE) as i64,
    }
}

/// The markers of one frame: one per probe that answered, in probe order;
/// a probe that failed contributes nothing.
pub open spec fn markers_of(probes: Seq<Option<BoundingBox>>) -> Seq<Marker>
    decreases probes.len(),
{
    if probes.len() == 0 {
        seq![]
    } else {
        let rest = markers_of(probes.drop_last());
        match probes.last() {
            Some(b) => rest.push(marker_of(b)),
            None => rest,
        }
    }
}

pub fn marker_at(b: &BoundingBox) -> (r: Marker)
    ensures
        r == marker_of(*b),
{
    let x = b.x as i64;
    let y = b.y as i64;
    Marker { left: x, top: y, right: x + MARKER_SIZE, bottom: y + MARKER_SIZE }
}

/// Turns the geometry answers of one frame into the markers to paint.
pub fn frame_markers(probes: &Vec<Option<BoundingBox>>) -> (r: Vec<Marker>)
    ensures
        r@ == markers_of(probes@),
{
    let mut out: Vec<Marker> = Vec::new();
    let mut i: usize = 0;
    while i < probes.len()
        invariant
            i <= probes.len(),
            out@ == markers_of(probes@.subrange(0, i as int)),
        decreases probes.len() - i,
    {
        assert(probes@.subrange(0, i + 1).drop_last() =~= probes@.subrange(0, i as int));
        match &probes[i] {
            Some(b) => {
                out.push(marker_at(b));
            },
            None => {},
        }
        i = i + 1;
    }
    assert(probes@.subrange(0, probes.len() as int) =~= probes@);
    out
}

/// A probe that failed in a frame does not keep any other element of the same
/// frame from being painted: every probe that answered has its marker drawn.
pub proof fn lemma_answered_probe_painted(probes: Seq<Option<BoundingBox>>, i: int)
    requires
        0 <= i < probes.len(),
        probes[i] is Some,
    ensures
        markers_of(probes).contains(marker_of(probes[i]->Some_0)),
    decreases probes.len(),
{
    let rest = probes.drop_last();
    if i == probes.len() - 1 {
        let m = marker_of(probes[i]->Some_0);
        assert(markers_of(probes) == markers_of(rest).push(m));
        assert(markers_of(probes)[markers_of(rest).len() as int] == m);
    } else {
        lemma_answered_probe_painted(rest, i);
        let m = marker_of(probes[i]->Some_0);
        let k = choose|k: int| 0 <= k < markers_of(rest).len() && markers_of(rest)[k] == m;
        match probes.last() {
            Some(b) => {
                assert(markers_of(probes)[k] == m);
            },
            None => {},
        }
    }
}

} // verus!
