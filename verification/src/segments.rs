use crate::graphic_rendition::{default_effect, spec_apply_sgrs, Sgr, SgrEffect};
use crate::sequences::{get_markers, markers_view, spec_markers, Csi, Escape, Marker, MarkerModel};
use vstd::prelude::*;

verus! {

/// The styled segments a marker list yields under one threaded rendition
/// state: each text marker becomes a segment under the state reached so
/// far, and each sequence marker folds its commands into the state
/// without yielding a segment.
pub open spec fn spec_segments_of(ms: Seq<MarkerModel>, e: SgrEffect) -> Seq<(SgrEffect, Seq<char>)>
    decreases ms.len(),
{
    if ms.len() == 0 {
        Seq::empty()
    } else {
        match ms[0] {
            MarkerModel::Text(s) => seq![(e, s)] + spec_segments_of(ms.skip(1), e),
            MarkerModel::Sequence(g) => spec_segments_of(ms.skip(1), spec_apply_sgrs(e, g)),
        }
    }
}

/// The styled segments of a string: its markers, threaded through the
/// rendition state machine starting from the default state.
pub open spec fn spec_segments(t: Seq<char>) -> Seq<(SgrEffect, Seq<char>)> {
    spec_segments_of(spec_markers(t), default_effect())
}

/// The views of a segment list.
pub open spec fn segments_view(segs: Seq<(SgrEffect, &str)>) -> Seq<(SgrEffect, Seq<char>)> {
    segs.map_values(|p: (SgrEffect, &str)| (p.0, p.1@))
}

/// Within a marker list, a sequence marker standing twice in a row
/// yields the same segments as standing once, whenever its command list
/// acts idempotently on the state it meets. For a single non-resetting
/// command, `lemma_apply_idempotent` supplies that premise.
pub proof fn lemma_duplicate_sequence_marker(ms: Seq<MarkerModel>, e: SgrEffect, g: Seq<Sgr>)
    requires
        spec_apply_sgrs(spec_apply_sgrs(e, g), g) == spec_apply_sgrs(e, g),
    ensures
        spec_segments_of(seq![MarkerModel::Sequence(g), MarkerModel::Sequence(g)] + ms, e)
            == spec_segments_of(seq![MarkerModel::Sequence(g)] + ms, e),
{
    let two = seq![MarkerModel::Sequence(g), MarkerModel::Sequence(g)] + ms;
    let one = seq![MarkerModel::Sequence(g)] + ms;
    assert(two[0] == MarkerModel::Sequence(g));
    assert(one[0] == MarkerModel::Sequence(g));
    assert(two.skip(1) =~= one);
    assert(one.skip(1) =~= ms);
    assert(spec_segments_of(two, e) == spec_segments_of(one, spec_apply_sgrs(e, g)));
    assert(spec_segments_of(one, spec_apply_sgrs(e, g)) == spec_segments_of(
        ms,
        spec_apply_sgrs(spec_apply_sgrs(e, g), g),
    ));
    assert(spec_segments_of(one, e) == spec_segments_of(ms, spec_apply_sgrs(e, g)));
}

/// Scan the string and emit its styled segments: one rendition state is
/// threaded across the whole scan, every text marker yields a segment
/// under the current state, and every parsed escape sequence updates the
/// state without yielding a segment of its own.
pub fn get_sgr_segments<'a>(s: &'a str) -> (r: Vec<(SgrEffect, &'a str)>)
    ensures
        segments_view(r@) == spec_segments(s@),
{
    let markers = get_markers(s);
    let ghost mm = markers_view(markers@);
    let mut segs: Vec<(SgrEffect, &'a str)> = Vec::new();
    let mut effect = SgrEffect::new();
    let mut i: usize = 0;
    proof {
        assert(mm.skip(0) =~= mm);
        assert(segments_view(segs@) =~= Seq::<(SgrEffect, Seq<char>)>::empty());
        assert(segments_view(segs@) + spec_segments_of(mm, default_effect()) =~= spec_segments_of(
            mm,
            default_effect(),
        ));
    }
    while i < markers.len()
        invariant
            i <= markers.len(),
            mm == markers_view(markers@),
            mm == spec_markers(s@),
            segments_view(segs@) + spec_segments_of(mm.skip(i as int), effect) == spec_segments(
                s@,
            ),
        decreases markers.len() - i,
    {
        proof {
            assert(mm.skip(i as int).skip(1) =~= mm.skip(i as int + 1));
            assert(mm[i as int] == markers@[i as int]@);
        }
        let ghost segs0 = segs@;
        match &markers[i] {
            Marker::Text(txt) => {
                segs.push((effect, *txt));
                proof {
                    assert(segments_view(segs@) =~= segments_view(segs0).push((effect, txt@)));
                    assert(spec_segments_of(mm.skip(i as int), effect) == seq![(effect, txt@)]
                        + spec_segments_of(mm.skip(i as int + 1), effect));
                    assert((segments_view(segs0) + seq![(effect, txt@)]) + spec_segments_of(
                        mm.skip(i as int + 1),
                        effect,
                    ) =~= segments_view(segs0) + (seq![(effect, txt@)] + spec_segments_of(
                        mm.skip(i as int + 1),
                        effect,
                    )));
                }
            },
            Marker::Sequence(e) => {
                let Escape::Csi(csi) = e;
                let Csi::Sgr(v) = csi;
                proof {
                    assert(spec_segments_of(mm.skip(i as int), effect) == spec_segments_of(
                        mm.skip(i as int + 1),
                        spec_apply_sgrs(effect, v@),
                    ));
                }
                effect.apply_sgrs(v);
            },
        }
        i = i + 1;
    }
    proof {
        assert(mm.skip(mm.len() as int) =~= Seq::<MarkerModel>::empty());
        assert(segments_view(segs@) + Seq::<(SgrEffect, Seq<char>)>::empty() =~= segments_view(
            segs@,
        ));
    }
    segs
}

} // verus!
