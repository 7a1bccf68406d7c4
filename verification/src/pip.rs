//! The picture-in-picture thumbnails of a session.
//!
//! Thumbnails are kept in stacking order, the topmost one last. What a method does is stated over
//! that sequence.
use crate::geometry::{
    is_inside, is_pixel_size, PixelSize, Point, Rectangle, ResizeEdge, Size,
};
use crate::number::{is_difference, Arithmetic, Number};
use crate::thumbnail::{
    fit_into_box, is_clamped, is_fit, is_output_size, is_pulled, is_resize_corner,
    is_thumbnail_size, is_zoomed, thumbnail_size, zero, OutputId, Outputs, PipId, PipThumbnail,
    MARGIN,
};
use crate::window::{Mapped, MappedId};
use vstd::prelude::*;

verus! {

/// What part of a thumbnail was hit.
#[derive(Clone, Copy, Debug, PartialEq, Eq, Structural)]
pub enum PipHitTarget {
    /// The picture.
    Body,
    /// The close button.
    CloseButton,
    /// A corner that resizes.
    Resize(ResizeEdge),
}

/// A thumbnail that was hit.
#[derive(Clone, Copy, Debug, PartialEq, Eq, Structural)]
pub struct PipHit {
    /// The thumbnail.
    pub id: PipId,
    /// The part of it.
    pub target: PipHitTarget,
}

/// The thumbnails and the identifier of the next one.
#[derive(Debug)]
pub struct PipManager {
    thumbnails: Vec<PipThumbnail>,
    next_id: PipId,
}

/// The thumbnails with the given identifier.
pub open spec fn with_id(id: PipId) -> spec_fn(PipThumbnail) -> bool {
    |thumb: PipThumbnail| thumb.id == id
}

/// The thumbnails of the given window.
pub open spec fn with_source(source_id: MappedId) -> spec_fn(PipThumbnail) -> bool {
    |thumb: PipThumbnail| thumb.source_id == source_id
}

/// The thumbnails on the given output.
pub open spec fn with_output(output: OutputId) -> spec_fn(PipThumbnail) -> bool {
    |thumb: PipThumbnail| thumb.output == output
}

/// The thumbnails that are not among `p`.
pub open spec fn without(p: spec_fn(PipThumbnail) -> bool) -> spec_fn(PipThumbnail) -> bool {
    |thumb: PipThumbnail| !p(thumb)
}

/// Some thumbnail is among `p`.
pub open spec fn any(s: Seq<PipThumbnail>, p: spec_fn(PipThumbnail) -> bool) -> bool {
    exists|i: int| 0 <= i < s.len() && p(#[trigger] s[i])
}

/// The thumbnail at `i` is the first among `p`.
pub open spec fn is_first(s: Seq<PipThumbnail>, p: spec_fn(PipThumbnail) -> bool, i: int) -> bool {
    0 <= i < s.len() && p(s[i]) && forall|j: int| 0 <= j < i ==> !p(#[trigger] s[j])
}

/// The outputs that show a thumbnail among `p`, each once, in the order in which they come first.
pub open spec fn outputs_of(
    s: Seq<PipThumbnail>,
    p: spec_fn(PipThumbnail) -> bool,
) -> Seq<OutputId>
    decreases s.len(),
{
    if s.len() == 0 {
        Seq::empty()
    } else {
        let rest = outputs_of(s.drop_last(), p);
        if p(s.last()) && !rest.contains(s.last().output) {
            rest.push(s.last().output)
        } else {
            rest
        }
    }
}

/// What removing the thumbnails among `p` does: the others stay in their order, and the outputs that
/// showed one are to be redrawn.
pub open spec fn is_removed(
    before: PipManager,
    p: spec_fn(PipThumbnail) -> bool,
    after: PipManager,
    redraw: Seq<OutputId>,
) -> bool {
    &&& after@ == before@.filter(without(p))
    &&& after.next() == before.next()
    &&& redraw == outputs_of(before@, p)
}

/// Identifiers are below `next` and none is used twice, and no window has two thumbnails.
pub open spec fn well_formed(s: Seq<PipThumbnail>, next: PipId) -> bool {
    &&& forall|i: int| 0 <= i < s.len() ==> (#[trigger] s[i]).id < next
    &&& forall|i: int, j: int|
        0 <= i < j < s.len() ==> (#[trigger] s[i]).id != (#[trigger] s[j]).id && s[i].source_id
            != s[j].source_id
}

impl View for PipManager {
    type V = Seq<PipThumbnail>;

    closed spec fn view(&self) -> Seq<PipThumbnail> {
        self.thumbnails@
    }
}

fn push_unique_output(outputs: &mut Vec<OutputId>, output: OutputId)
    ensures
        final(outputs)@ == (if old(outputs)@.contains(output) {
            old(outputs)@
        } else {
            old(outputs)@.push(output)
        }),
{
    let mut i: usize = 0;
    while i < outputs.len()
        invariant
            i <= outputs.len(),
            *outputs == *old(outputs),
            forall|j: int| 0 <= j < i ==> outputs@[j] != output,
        decreases outputs.len() - i,
    {
        if outputs[i] == output {
            return ;
        }
        i += 1;
    }
    outputs.push(output);
}

impl PipManager {
    /// The identifier of the next thumbnail.
    pub closed spec fn next(self) -> PipId {
        self.next_id
    }

    /// Identifiers are fresh, and identifiers and windows are distinct.
    pub open spec fn wf(self) -> bool {
        well_formed(self@, self.next())
    }

    /// A manager without thumbnails.
    pub fn new() -> (manager: PipManager)
        ensures
            manager@ == Seq::<PipThumbnail>::empty(),
            manager.next() == 1,
            manager.wf(),
    {
        PipManager { thumbnails: Vec::new(), next_id: 1 }
    }

    /// The thumbnails in stacking order.
    pub(crate) fn stack(&self) -> (stack: &Vec<PipThumbnail>)
        ensures
            stack@ == self@,
    {
        &self.thumbnails
    }

    fn remove_where<F: Fn(&PipThumbnail) -> bool>(
        &mut self,
        predicate: F,
        Ghost(p): Ghost<spec_fn(PipThumbnail) -> bool>,
    ) -> (removed: Vec<OutputId>)
        requires
            forall|thumb: &PipThumbnail| #[trigger] predicate.requires((thumb,)),
            forall|thumb: &PipThumbnail, r: bool| #[trigger]
                predicate.ensures((thumb,), r) ==> r == p(*thumb),
        ensures
            final(self)@ == old(self)@.filter(without(p)),
            final(self).next() == old(self).next(),
            removed@ == outputs_of(old(self)@, p),
    {
        let ghost s = self.thumbnails@;
        let mut kept: Vec<PipThumbnail> = Vec::new();
        let mut removed: Vec<OutputId> = Vec::new();
        let mut i: usize = 0;
        while i < self.thumbnails.len()
            invariant
                i <= self.thumbnails.len(),
                self.thumbnails@ == s,
                self.next_id == old(self).next_id,
                kept@ == s.take(i as int).filter(without(p)),
                removed@ == outputs_of(s.take(i as int), p),
                forall|thumb: &PipThumbnail| #[trigger] predicate.requires((thumb,)),
                forall|thumb: &PipThumbnail, r: bool| #[trigger]
                    predicate.ensures((thumb,), r) ==> r == p(*thumb),
            decreases s.len() - i,
        {
            proof {
                let next = s.take(i + 1);
                assert(next.drop_last() =~= s.take(i as int));
                assert(next.last() == s[i as int]);
                reveal(Seq::filter);
            }
            let thumb = self.thumbnails[i];
            if predicate(&thumb) {
                push_unique_output(&mut removed, thumb.output);
            } else {
                kept.push(thumb);
            }
            i += 1;
        }
        proof {
            assert(s.take(i as int) =~= s);
        }
        self.thumbnails = kept;
        removed
    }

    fn index_where<F: Fn(&PipThumbnail) -> bool>(
        &self,
        predicate: F,
        Ghost(p): Ghost<spec_fn(PipThumbnail) -> bool>,
    ) -> (index: Option<usize>)
        requires
            forall|thumb: &PipThumbnail| #[trigger] predicate.requires((thumb,)),
            forall|thumb: &PipThumbnail, r: bool| #[trigger]
                predicate.ensures((thumb,), r) ==> r == p(*thumb),
        ensures
            match index {
                Some(i) => is_first(self@, p, i as int),
                None => !any(self@, p),
            },
    {
        let mut i: usize = 0;
        while i < self.thumbnails.len()
            invariant
                i <= self.thumbnails.len(),
                forall|j: int| 0 <= j < i ==> !p(#[trigger] self.thumbnails@[j]),
                forall|thumb: &PipThumbnail| #[trigger] predicate.requires((thumb,)),
                forall|thumb: &PipThumbnail, r: bool| #[trigger]
                    predicate.ensures((thumb,), r) ==> r == p(*thumb),
            decreases self.thumbnails.len() - i,
        {
            if predicate(&self.thumbnails[i]) {
                return Some(i);
            }
            i += 1;
        }
        None
    }
}

/// `place` is where an extent begins that ends a margin before the bound, or the origin.
pub open spec fn is_margin_place<A: Arithmetic>(
    a: &A,
    bound: Number,
    extent: Number,
    place: Number,
) -> bool {
    exists|room: Number, rest: Number|
        #![trigger is_difference(a, bound, extent, room), is_difference(a, room, Number { bits: MARGIN }, rest)]
        is_difference(a, bound, extent, room) && is_difference(
            a,
            room,
            Number { bits: MARGIN },
            rest,
        ) && place == zero().greater(rest)
}

/// `thumb` is a new thumbnail of a window: in the lower-right corner of the output, not hovered.
pub open spec fn is_new_thumbnail<H: Arithmetic + Outputs>(
    h: &H,
    id: PipId,
    source_id: MappedId,
    source_size: PixelSize,
    output: OutputId,
    thumb: PipThumbnail,
) -> bool {
    &&& thumb.id == id
    &&& thumb.source_id == source_id
    &&& thumb.output == output
    &&& !thumb.is_hovered
    &&& is_pixel_size(h, source_size, thumb.source_size)
    &&& exists|bounds: Size| #[trigger]
        is_output_size(h, output, bounds) && is_thumbnail_size(
            h,
            thumb.source_size,
            bounds,
            thumb.size,
        ) && is_margin_place(h, bounds.w, thumb.size.w, thumb.position.x) && is_margin_place(
            h,
            bounds.h,
            thumb.size.h,
            thumb.position.y,
        )
}

/// What toggling a window's thumbnail does: removes it where there is one, else adds one on top.
pub open spec fn is_toggled<H: Arithmetic + Outputs>(
    h: &H,
    before: PipManager,
    source_id: MappedId,
    source_size: PixelSize,
    output: OutputId,
    after: PipManager,
    redraw: Seq<OutputId>,
) -> bool {
    if any(before@, with_source(source_id)) {
        &&& after@ == before@.filter(without(with_source(source_id)))
        &&& after.next() == before.next()
        &&& redraw == outputs_of(before@, with_source(source_id))
    } else {
        &&& after@.len() == before@.len() + 1
        &&& after@.drop_last() == before@
        &&& is_new_thumbnail(h, before.next(), source_id, source_size, output, after@.last())
        &&& after.next() == before.next() + 1
        &&& redraw == seq![output]
    }
}

impl PipManager {
    /// Whether the thumbnail of a window can be toggled: it has one, or there is an identifier left
    /// for it.
    pub fn can_toggle(&self, source_id: MappedId) -> (result: bool)
        ensures
            result == (any(self@, with_source(source_id)) || self.next() < u64::MAX),
    {
        self.next_id < u64::MAX || self.find_by_source(source_id).is_some()
    }

    /// Removes the thumbnail of a window, or adds one to the output.
    ///
    /// Returns the outputs to redraw.
    pub fn toggle_pip<H: Arithmetic + Outputs>(
        &mut self,
        h: &H,
        mapped: &Mapped,
        output: OutputId,
    ) -> (redraw: Vec<OutputId>)
        requires
            any(old(self)@, with_source(mapped.id)) || old(self).next() < u64::MAX,
        ensures
            is_toggled(h, *old(self), mapped.id, mapped.size, output, *final(self), redraw@),
            old(self).wf() ==> final(self).wf(),
    {
        self.toggle_pip_for_source(h, mapped.id, mapped.size, output)
    }

    /// Removes the thumbnail of a window, or adds one to the output.
    ///
    /// Returns the outputs to redraw.
    pub fn toggle_pip_for_source<H: Arithmetic + Outputs>(
        &mut self,
        h: &H,
        source_id: MappedId,
        source_size: PixelSize,
        output: OutputId,
    ) -> (redraw: Vec<OutputId>)
        requires
            any(old(self)@, with_source(source_id)) || old(self).next() < u64::MAX,
        ensures
            is_toggled(h, *old(self), source_id, source_size, output, *final(self), redraw@),
            old(self).wf() ==> final(self).wf(),
    {
        let ghost p = with_source(source_id);
        let ghost s = self@;
        let removed = self.remove_by_source(source_id);
        proof {
            lemma_outputs_empty(s, p);
        }
        if removed.len() != 0 {
            return removed;
        }
        proof {
            lemma_filter_all(s, without(p));
        }

        let zero = Number::zero();
        let margin = Number::new(MARGIN);
        let bounds = h.output_size(output);
        let source_size = source_size.to_size(h);
        let size = thumbnail_size(h, source_size, bounds);
        let position = Point::new(
            zero.max(h.difference(h.difference(bounds.w, size.w), margin)),
            zero.max(h.difference(h.difference(bounds.h, size.h), margin)),
        );

        let id = self.next_id;
        self.next_id += 1;

        self.thumbnails.push(
            PipThumbnail { id, source_id, output, position, size, source_size, is_hovered: false },
        );
        proof {
            assert(self@.drop_last() =~= s);
        }

        let redraw = vec![output];
        assert(redraw@ =~= seq![output]);
        redraw
    }

    /// Removes a thumbnail. Returns the outputs to redraw.
    pub fn remove(&mut self, id: PipId) -> (redraw: Vec<OutputId>)
        ensures
            is_removed(*old(self), with_id(id), *final(self), redraw@),
            old(self).wf() ==> final(self).wf(),
    {
        proof {
            if self.wf() {
                lemma_filter_well_formed(self@, self.next(), without(with_id(id)));
            }
        }
        let predicate = |thumb: &PipThumbnail| -> (r: bool)
            ensures
                r == (thumb.id == id),
            { thumb.id == id };
        self.remove_where(predicate, Ghost(with_id(id)))
    }

    /// Removes the thumbnails of a window. Returns the outputs to redraw.
    pub fn remove_by_source(&mut self, source_id: MappedId) -> (redraw: Vec<OutputId>)
        ensures
            is_removed(*old(self), with_source(source_id), *final(self), redraw@),
            old(self).wf() ==> final(self).wf(),
    {
        proof {
            if self.wf() {
                lemma_filter_well_formed(self@, self.next(), without(with_source(source_id)));
            }
        }
        let predicate = |thumb: &PipThumbnail| -> (r: bool)
            ensures
                r == (thumb.source_id == source_id),
            { thumb.source_id == source_id };
        self.remove_where(predicate, Ghost(with_source(source_id)))
    }

    /// Removes the thumbnails on an output. Returns the outputs to redraw.
    pub fn remove_by_output(&mut self, output: OutputId) -> (redraw: Vec<OutputId>)
        ensures
            is_removed(*old(self), with_output(output), *final(self), redraw@),
            old(self).wf() ==> final(self).wf(),
    {
        proof {
            if self.wf() {
                lemma_filter_well_formed(self@, self.next(), without(with_output(output)));
            }
        }
        let predicate = |thumb: &PipThumbnail| -> (r: bool)
            ensures
                r == (thumb.output == output),
            { thumb.output == output };
        self.remove_where(predicate, Ghost(with_output(output)))
    }
}

/// What changing the first thumbnail with an identifier does: `change` relates it before and
/// after, and all others stay as they are.
pub open spec fn is_changed(
    before: PipManager,
    id: PipId,
    change: spec_fn(PipThumbnail, PipThumbnail) -> bool,
    after: PipManager,
    redraw: Option<OutputId>,
) -> bool {
    &&& after.next() == before.next()
    &&& match redraw {
        Some(output) => exists|i: int|
            #![trigger is_first(before@, with_id(id), i)]
            is_first(before@, with_id(id), i) && after@.len() == before@.len() && after@
                == before@.update(i, after@[i]) && change(before@[i], after@[i]) && output
                == before@[i].output,
        None => !any(before@, with_id(id)) && after@ == before@,
    }
}

/// The thumbnail moved to a position and from there onto its output.
pub open spec fn move_to<H: Arithmetic + Outputs>(
    h: &H,
    position: Point,
) -> spec_fn(PipThumbnail, PipThumbnail) -> bool {
    |before: PipThumbnail, after: PipThumbnail|
        is_clamped(h, PipThumbnail { position, ..before }, after)
}

/// The thumbnail with edges pulled to the pointer, moved onto its output.
pub open spec fn pull_to<H: Arithmetic + Outputs>(
    h: &H,
    edges: ResizeEdge,
    pointer: Point,
) -> spec_fn(PipThumbnail, PipThumbnail) -> bool {
    |before: PipThumbnail, after: PipThumbnail|
        exists|pulled: PipThumbnail| #[trigger]
            is_pulled(h, before, edges, pointer, pulled) && is_clamped(h, pulled, after)
}

/// The thumbnail scaled by a factor, moved onto its output.
pub open spec fn zoom_by<H: Arithmetic + Outputs>(
    h: &H,
    factor: Number,
) -> spec_fn(PipThumbnail, PipThumbnail) -> bool {
    |before: PipThumbnail, after: PipThumbnail|
        exists|zoomed: PipThumbnail| #[trigger]
            is_zoomed(h, before, factor, zoomed) && is_clamped(h, zoomed, after)
}

/// The thumbnail is on another output, or the point is not in it.
pub open spec fn is_missed<A: Arithmetic>(
    a: &A,
    thumb: PipThumbnail,
    output: OutputId,
    pos: Point,
) -> bool {
    thumb.output == output ==> is_inside(a, thumb.area(), pos, false)
}

/// `target` is the part of the thumbnail that the point is in: the close button before a corner,
/// and a corner before the picture.
pub open spec fn is_target<A: Arithmetic>(
    a: &A,
    thumb: PipThumbnail,
    pos: Point,
    target: PipHitTarget,
) -> bool {
    let button = thumb.button_area();
    match target {
        PipHitTarget::CloseButton => is_inside(a, button, pos, true),
        PipHitTarget::Resize(edges) => is_inside(a, button, pos, false) && is_resize_corner(
            a,
            thumb,
            pos,
            Some(edges),
        ),
        PipHitTarget::Body => is_inside(a, button, pos, false) && is_resize_corner(
            a,
            thumb,
            pos,
            None,
        ),
    }
}

/// The thumbnail at `i` is hit: it is on the output, the point is in it and in none above it.
pub open spec fn is_hit_at<A: Arithmetic>(
    a: &A,
    s: Seq<PipThumbnail>,
    output: OutputId,
    pos: Point,
    i: int,
) -> bool {
    &&& 0 <= i < s.len()
    &&& s[i].output == output
    &&& is_inside(a, s[i].area(), pos, true)
    &&& forall|j: int| i < j < s.len() ==> is_missed(a, #[trigger] s[j], output, pos)
}

/// `hit` is the topmost thumbnail of the output that the point is in, and the part of it.
pub open spec fn is_hit<A: Arithmetic>(
    a: &A,
    s: Seq<PipThumbnail>,
    output: OutputId,
    pos: Point,
    hit: Option<PipHit>,
) -> bool {
    match hit {
        Some(hit) => exists|i: int| #[trigger]
            is_hit_at(a, s, output, pos, i) && hit.id == s[i].id && is_target(
                a,
                s[i],
                pos,
                hit.target,
            ),
        None => forall|j: int| 0 <= j < s.len() ==> is_missed(a, #[trigger] s[j], output, pos),
    }
}

/// The identifier of what was hit.
pub open spec fn hit_id(hit: Option<PipHit>) -> Option<PipId> {
    match hit {
        Some(hit) => Some(hit.id),
        None => None,
    }
}

/// `id` is the identifier of the topmost thumbnail of the output that the point is in.
pub open spec fn is_hit_id<A: Arithmetic>(
    a: &A,
    s: Seq<PipThumbnail>,
    output: OutputId,
    pos: Point,
    id: Option<PipId>,
) -> bool {
    exists|hit: Option<PipHit>| #[trigger] is_hit(a, s, output, pos, hit) && id == hit_id(hit)
}

/// What raising a thumbnail does: it becomes the last one, and the others keep their order.
pub open spec fn is_raised(
    before: Seq<PipThumbnail>,
    id: PipId,
    after: Seq<PipThumbnail>,
    changed: bool,
) -> bool {
    if any(before, with_id(id)) {
        exists|i: int| #[trigger]
            is_first(before, with_id(id), i) && after == before.remove(i).push(before[i]) && changed
                == (i + 1 < before.len())
    } else {
        !changed && after == before
    }
}

/// The thumbnails with hover set on the one with the hovered identifier and cleared on the others.
pub open spec fn hovered(s: Seq<PipThumbnail>, id: Option<PipId>) -> Seq<PipThumbnail> {
    s.map_values(|thumb: PipThumbnail| PipThumbnail { is_hovered: Some(thumb.id) == id, ..thumb })
}

/// `id` is the thumbnail that the pointer is over; none where there is no pointer.
pub open spec fn is_under<A: Arithmetic>(
    a: &A,
    s: Seq<PipThumbnail>,
    pointer: Option<(OutputId, Point)>,
    id: Option<PipId>,
) -> bool {
    match pointer {
        Some((output, pos)) => is_hit_id(a, s, output, pos, id),
        None => id is None,
    }
}

/// `after` is the thumbnail with a new size of its window: fitted into the old area and moved onto
/// its output.
pub open spec fn is_refreshed<H: Arithmetic + Outputs>(
    h: &H,
    before: PipThumbnail,
    source_size: Size,
    after: PipThumbnail,
) -> bool {
    exists|size: Size| #[trigger]
        is_fit(h, source_size, before.size, size) && is_clamped(
            h,
            PipThumbnail { source_size, size, ..before },
            after,
        )
}

/// The thumbnails among `p` are changed as `change` says, and the others stay as they are.
pub open spec fn changed_where(
    before: Seq<PipThumbnail>,
    p: spec_fn(PipThumbnail) -> bool,
    change: spec_fn(PipThumbnail, PipThumbnail) -> bool,
    after: Seq<PipThumbnail>,
) -> bool {
    &&& after.len() == before.len()
    &&& forall|i: int|
        0 <= i < before.len() ==> if p(before[i]) {
            change(before[i], #[trigger] after[i])
        } else {
            after[i] == before[i]
        }
}

/// The thumbnail with the new size of its window.
pub open spec fn refresh_to<H: Arithmetic + Outputs>(
    h: &H,
    source_size: Size,
) -> spec_fn(PipThumbnail, PipThumbnail) -> bool {
    |before: PipThumbnail, after: PipThumbnail| is_refreshed(h, before, source_size, after)
}

/// The thumbnail moved onto its output.
pub open spec fn clamp_onto<H: Arithmetic + Outputs>(
    h: &H,
) -> spec_fn(PipThumbnail, PipThumbnail) -> bool {
    |before: PipThumbnail, after: PipThumbnail| is_clamped(h, before, after)
}

/// The thumbnail at `i` has moved. A position that is not a number counts as moved.
pub open spec fn has_moved(before: Seq<PipThumbnail>, after: Seq<PipThumbnail>, i: int) -> bool {
    !before[i].position.same(after[i].position)
}

/// `found` is the first thumbnail among `p`.
pub open spec fn is_found(
    s: Seq<PipThumbnail>,
    p: spec_fn(PipThumbnail) -> bool,
    found: Option<PipThumbnail>,
) -> bool {
    match found {
        Some(thumb) => exists|i: int| #[trigger] is_first(s, p, i) && thumb == s[i],
        None => !any(s, p),
    }
}

/// `rect` is the area of the close button of the first thumbnail with an identifier.
pub open spec fn is_button_of(s: Seq<PipThumbnail>, id: PipId, rect: Option<Rectangle>) -> bool {
    match rect {
        Some(rect) => exists|i: int| #[trigger]
            is_first(s, with_id(id), i) && rect == s[i].button_area(),
        None => !any(s, with_id(id)),
    }
}

/// What resizing by a factor does: nothing where the factor is zero or less.
pub open spec fn is_resized_by<H: Arithmetic + Outputs>(
    h: &H,
    before: PipManager,
    id: PipId,
    factor: Number,
    after: PipManager,
    redraw: Option<OutputId>,
) -> bool {
    if factor.le(zero()) {
        redraw is None && after@ == before@ && after.next() == before.next()
    } else {
        is_changed(before, id, zoom_by(h, factor), after, redraw)
    }
}

/// What moving the pointer does to the marks: the thumbnail under it is marked, and no other.
pub open spec fn is_hover_updated<A: Arithmetic>(
    a: &A,
    before: Seq<PipThumbnail>,
    pointer: Option<(OutputId, Point)>,
    after: Seq<PipThumbnail>,
    changed: bool,
) -> bool {
    &&& exists|id: Option<PipId>| #[trigger]
        is_under(a, before, pointer, id) && after == hovered(before, id)
    &&& changed == (after != before)
}

/// What a new size of a window does to its thumbnails.
pub open spec fn is_source_refreshed<H: Arithmetic + Outputs>(
    h: &H,
    before: Seq<PipThumbnail>,
    source_id: MappedId,
    size: PixelSize,
    after: Seq<PipThumbnail>,
) -> bool {
    exists|source_size: Size| #[trigger]
        is_pixel_size(h, size, source_size) && changed_where(
            before,
            with_source(source_id),
            refresh_to(h, source_size),
            after,
        )
}

/// What moving the thumbnails of an output onto it does.
pub open spec fn is_output_clamped<H: Arithmetic + Outputs>(
    h: &H,
    before: Seq<PipThumbnail>,
    output: OutputId,
    after: Seq<PipThumbnail>,
    changed: bool,
) -> bool {
    &&& changed_where(before, with_output(output), clamp_onto(h), after)
    &&& changed == exists|i: int|
        0 <= i < before.len() && before[i].output == output && #[trigger] has_moved(
            before,
            after,
            i,
        )
}

impl PipManager {
    /// The thumbnail with an identifier.
    pub fn find(&self, id: PipId) -> (found: Option<&PipThumbnail>)
        ensures
            is_found(
                self@,
                with_id(id),
                match found {
                    Some(thumb) => Some(*thumb),
                    None => None,
                },
            ),
    {
        let predicate = |thumb: &PipThumbnail| -> (r: bool)
            ensures
                r == (thumb.id == id),
            { thumb.id == id };
        match self.index_where(predicate, Ghost(with_id(id))) {
            Some(i) => Some(&self.thumbnails[i]),
            None => None,
        }
    }

    /// The thumbnail of a window.
    pub fn find_by_source(&self, source_id: MappedId) -> (found: Option<&PipThumbnail>)
        ensures
            is_found(
                self@,
                with_source(source_id),
                match found {
                    Some(thumb) => Some(*thumb),
                    None => None,
                },
            ),
    {
        let predicate = |thumb: &PipThumbnail| -> (r: bool)
            ensures
                r == (thumb.source_id == source_id),
            { thumb.source_id == source_id };
        match self.index_where(predicate, Ghost(with_source(source_id))) {
            Some(i) => Some(&self.thumbnails[i]),
            None => None,
        }
    }

    /// The thumbnail with an identifier, to be changed.
    pub fn find_mut(&mut self, id: PipId) -> (found: Option<&mut PipThumbnail>)
        ensures
            final(self).next() == old(self).next(),
            match found {
                Some(thumb) => exists|i: int| #[trigger]
                    is_first(old(self)@, with_id(id), i) && *thumb == old(self)@[i] && final(self)@
                        == old(self)@.update(i, *final(thumb)),
                None => !any(old(self)@, with_id(id)) && final(self)@ == old(self)@,
            },
    {
        let predicate = |thumb: &PipThumbnail| -> (r: bool)
            ensures
                r == (thumb.id == id),
            { thumb.id == id };
        match self.index_where(predicate, Ghost(with_id(id))) {
            Some(i) => Some(&mut self.thumbnails[i]),
            None => None,
        }
    }

    /// Moves a thumbnail to a position on its output. Returns the output to redraw.
    pub fn move_pip<H: Arithmetic + Outputs>(
        &mut self,
        h: &H,
        id: PipId,
        position: Point,
    ) -> (redraw: Option<OutputId>)
        ensures
            is_changed(*old(self), id, move_to(h, position), *final(self), redraw),
            old(self).wf() ==> final(self).wf(),
    {
        match self.find_mut(id) {
            Some(thumb) => {
                thumb.position = position;
                thumb.clamp_to_output(h);
                let output = thumb.output;
                Some(output)
            },
            None => None,
        }
    }
}

impl PipManager {
    /// Puts a thumbnail on top of the others. Tells whether that changed the order.
    pub fn raise_to_top(&mut self, id: PipId) -> (changed: bool)
        ensures
            is_raised(old(self)@, id, final(self)@, changed),
            final(self).next() == old(self).next(),
            old(self).wf() ==> final(self).wf(),
    {
        let predicate = |thumb: &PipThumbnail| -> (r: bool)
            ensures
                r == (thumb.id == id),
            { thumb.id == id };
        let idx: usize = match self.index_where(predicate, Ghost(with_id(id))) {
            Some(idx) => idx,
            None => return false,
        };
        if idx == self.thumbnails.len() - 1 {
            assert(self@.remove(idx as int).push(self@[idx as int]) =~= self@);
            return false;
        }

        let thumb = self.thumbnails.remove(idx);
        self.thumbnails.push(thumb);
        true
    }

    /// The topmost thumbnail of the output that the point is in, and the part of it.
    pub fn hit_test<A: Arithmetic>(&self, a: &A, output: OutputId, pos: Point) -> (hit: Option<PipHit>)
        ensures
            is_hit(a, self@, output, pos, hit),
    {
        let mut i: usize = self.thumbnails.len();
        while i > 0
            invariant
                i <= self.thumbnails.len(),
                forall|j: int|
                    i <= j < self@.len() ==> is_missed(a, #[trigger] self@[j], output, pos),
            decreases i,
        {
            i -= 1;
            let thumb = self.thumbnails[i];
            if thumb.output == output && thumb.rect().contains(a, pos) {
                assert(is_hit_at(a, self@, output, pos, i as int));
                let button = thumb.close_button_rect();
                let target = if button.contains(a, pos) {
                    PipHitTarget::CloseButton
                } else if let Some(edges) = thumb.resize_corner_at(a, pos) {
                    PipHitTarget::Resize(edges)
                } else {
                    PipHitTarget::Body
                };
                return Some(PipHit { id: thumb.id, target });
            }
        }
        None
    }

    /// The topmost thumbnail of the output that the point is in.
    pub fn pip_under<A: Arithmetic>(&self, a: &A, output: OutputId, pos: Point) -> (id: Option<PipId>)
        ensures
            is_hit_id(a, self@, output, pos, id),
    {
        let hit = self.hit_test(a, output, pos);
        match hit {
            Some(hit) => Some(hit.id),
            None => None,
        }
    }

    /// The area of the close button of a thumbnail.
    pub fn close_button_rect(&self, id: PipId) -> (rect: Option<Rectangle>)
        ensures
            is_button_of(self@, id, rect),
    {
        match self.find(id) {
            Some(thumb) => Some(thumb.close_button_rect()),
            None => None,
        }
    }

    /// Resizes a thumbnail by pulling edges to the pointer. Returns the output to redraw.
    pub fn resize_pip<H: Arithmetic + Outputs>(
        &mut self,
        h: &H,
        id: PipId,
        edges: ResizeEdge,
        pointer: Point,
    ) -> (redraw: Option<OutputId>)
        ensures
            is_changed(*old(self), id, pull_to(h, edges, pointer), *final(self), redraw),
            old(self).wf() ==> final(self).wf(),
    {
        match self.find_mut(id) {
            Some(thumb) => {
                thumb.pull_edges(h, edges, pointer);
                thumb.clamp_to_output(h);
                let output = thumb.output;
                Some(output)
            },
            None => None,
        }
    }

    /// Resizes a thumbnail by a factor around its center. Returns the output to redraw. A factor
    /// of zero or less changes nothing.
    pub fn resize_by_factor<H: Arithmetic + Outputs>(
        &mut self,
        h: &H,
        id: PipId,
        factor: Number,
    ) -> (redraw: Option<OutputId>)
        ensures
            is_resized_by(h, *old(self), id, factor, *final(self), redraw),
            old(self).wf() ==> final(self).wf(),
    {
        if factor.is_le(Number::zero()) {
            return None;
        }

        match self.find_mut(id) {
            Some(thumb) => {
                thumb.zoom(h, factor);
                thumb.clamp_to_output(h);
                let output = thumb.output;
                Some(output)
            },
            None => None,
        }
    }
}

impl PipManager {
    /// Marks the thumbnail under the pointer as hovered and all others as not hovered. Tells
    /// whether that changed a mark.
    pub fn update_hover<A: Arithmetic>(
        &mut self,
        a: &A,
        pointer: Option<(OutputId, Point)>,
    ) -> (changed: bool)
        ensures
            is_hover_updated(a, old(self)@, pointer, final(self)@, changed),
            final(self).next() == old(self).next(),
            old(self).wf() ==> final(self).wf(),
    {
        let target = match pointer {
            Some((output, pos)) => self.pip_under(a, output, pos),
            None => None,
        };
        assert(is_under(a, self@, pointer, target));
        let ghost s = self@;
        let mut changed = false;
        let mut i: usize = 0;
        while i < self.thumbnails.len()
            invariant
                i <= self.thumbnails.len(),
                self@.len() == s.len(),
                self.next_id == old(self).next_id,
                forall|j: int|
                    0 <= j < i ==> #[trigger] self@[j] == (PipThumbnail {
                        is_hovered: Some(s[j].id) == target,
                        ..s[j]
                    }),
                forall|j: int| i <= j < s.len() ==> #[trigger] self@[j] == s[j],
                changed == (self@ != s),
            decreases s.len() - i,
        {
            let mut thumb = self.thumbnails[i];
            let is_hovered = match target {
                Some(id) => thumb.id == id,
                None => false,
            };
            if thumb.is_hovered != is_hovered {
                thumb.is_hovered = is_hovered;
                self.thumbnails.set(i, thumb);
                changed = true;
                assert(self@[i as int] != s[i as int]);
            }
            i += 1;
        }
        assert(self@ =~= hovered(s, target));
        changed
    }

    /// Notes a new size of a window. Its thumbnail keeps within its area and its output.
    pub fn refresh_source_size<H: Arithmetic + Outputs>(
        &mut self,
        h: &H,
        source_id: MappedId,
        size: PixelSize,
    )
        ensures
            is_source_refreshed(h, old(self)@, source_id, size, final(self)@),
            final(self).next() == old(self).next(),
            old(self).wf() ==> final(self).wf(),
    {
        let ghost pixels = size;
        let size = size.to_size(h);
        assert(is_pixel_size(h, pixels, size));
        let ghost s = self@;
        let mut i: usize = 0;
        while i < self.thumbnails.len()
            invariant
                i <= self.thumbnails.len(),
                self@.len() == s.len(),
                self.next_id == old(self).next_id,
                forall|j: int|
                    0 <= j < i ==> if s[j].source_id == source_id {
                        is_refreshed(h, s[j], size, #[trigger] self@[j])
                    } else {
                        self@[j] == s[j]
                    },
                forall|j: int| i <= j < s.len() ==> #[trigger] self@[j] == s[j],
            decreases s.len() - i,
        {
            let mut thumb = self.thumbnails[i];
            if thumb.source_id == source_id {
                thumb.source_size = size;
                thumb.size = fit_into_box(h, size, thumb.size);
                thumb.clamp_to_output(h);
                self.thumbnails.set(i, thumb);
            }
            i += 1;
        }
        proof {
            assert(changed_where(s, with_source(source_id), refresh_to(h, size), self@));
            if well_formed(s, self.next()) {
                assert forall|j: int| 0 <= j < s.len() implies (#[trigger] self@[j]).id == s[j].id
                    && self@[j].source_id == s[j].source_id by {}
            }
        }
    }

    /// The outputs that show a thumbnail of a window.
    pub fn outputs_for_source(&self, source_id: MappedId) -> (outputs: Vec<OutputId>)
        ensures
            outputs@ == outputs_of(self@, with_source(source_id)),
    {
        let ghost s = self@;
        let mut outputs: Vec<OutputId> = Vec::new();
        let mut i: usize = 0;
        while i < self.thumbnails.len()
            invariant
                i <= self.thumbnails.len(),
                self@ == s,
                outputs@ == outputs_of(s.take(i as int), with_source(source_id)),
            decreases s.len() - i,
        {
            proof {
                let next = s.take(i + 1);
                assert(next.drop_last() =~= s.take(i as int));
                assert(next.last() == s[i as int]);
            }
            if self.thumbnails[i].source_id == source_id {
                push_unique_output(&mut outputs, self.thumbnails[i].output);
            }
            i += 1;
        }
        proof {
            assert(s.take(i as int) =~= s);
        }
        outputs
    }

    /// Moves the thumbnails of an output onto it. Tells whether one moved.
    pub fn clamp_output<H: Arithmetic + Outputs>(&mut self, h: &H, output: OutputId) -> (changed: bool)
        ensures
            is_output_clamped(h, old(self)@, output, final(self)@, changed),
            final(self).next() == old(self).next(),
            old(self).wf() ==> final(self).wf(),
    {
        let ghost s = self@;
        let mut changed = false;
        let mut i: usize = 0;
        while i < self.thumbnails.len()
            invariant
                i <= self.thumbnails.len(),
                self@.len() == s.len(),
                self.next_id == old(self).next_id,
                forall|j: int|
                    0 <= j < i ==> if s[j].output == output {
                        is_clamped(h, s[j], #[trigger] self@[j])
                    } else {
                        self@[j] == s[j]
                    },
                forall|j: int| i <= j < s.len() ==> #[trigger] self@[j] == s[j],
                changed == exists|j: int|
                    0 <= j < i && s[j].output == output && #[trigger] has_moved(s, self@, j),
            decreases s.len() - i,
        {
            let ghost before = self@;
            let ghost was = changed;
            let mut thumb = self.thumbnails[i];
            if thumb.output == output {
                let moved = thumb.clamp_to_output(h);
                self.thumbnails.set(i, thumb);
                changed = changed || moved;
                proof {
                    assert(moved == has_moved(s, self@, i as int));
                }
            }
            proof {
                assert forall|j: int| 0 <= j < i implies #[trigger] has_moved(s, self@, j)
                    == has_moved(s, before, j) by {
                    assert(self@[j] == before[j]);
                }
                if was {
                    let j = choose|j: int|
                        0 <= j < i && s[j].output == output && #[trigger] has_moved(s, before, j);
                    assert(has_moved(s, self@, j));
                }
            }
            i += 1;
        }
        proof {
            if well_formed(s, self.next()) {
                assert forall|j: int| 0 <= j < s.len() implies (#[trigger] self@[j]).id == s[j].id
                    && self@[j].source_id == s[j].source_id by {}
            }
        }
        changed
    }
}

/// A filter keeps distinct identifiers distinct and fresh ones fresh.
proof fn lemma_filter_well_formed(
    s: Seq<PipThumbnail>,
    next: PipId,
    p: spec_fn(PipThumbnail) -> bool,
)
    requires
        well_formed(s, next),
    ensures
        well_formed(s.filter(p), next),
    decreases s.len(),
{
    reveal(Seq::filter);
    if s.len() > 0 {
        let rest = s.drop_last();
        assert forall|i: int, j: int| 0 <= i < j < rest.len() implies (#[trigger] rest[i]).id != (
        #[trigger] rest[j]).id && rest[i].source_id != rest[j].source_id by {
            assert(rest[i] == s[i] && rest[j] == s[j]);
        }
        assert forall|i: int| 0 <= i < rest.len() implies (#[trigger] rest[i]).id < next by {
            assert(rest[i] == s[i]);
        }
        lemma_filter_well_formed(rest, next, p);
        let kept = rest.filter(p);
        if p(s.last()) {
            assert forall|i: int| 0 <= i < kept.len() implies (#[trigger] kept[i]).id
                != s.last().id && kept[i].source_id != s.last().source_id && kept[i].id < next by {
                rest.lemma_filter_contains_rev(p, kept[i]);
                let k = rest.index_of(kept[i]);
                assert(s[k] == kept[i]);
                assert(s[s.len() - 1] == s.last());
            }
            assert(s.filter(p) == kept.push(s.last()));
        }
    }
}

/// A filter that nothing fails keeps the sequence.
pub(crate) proof fn lemma_filter_all(s: Seq<PipThumbnail>, p: spec_fn(PipThumbnail) -> bool)
    requires
        forall|i: int| 0 <= i < s.len() ==> p(#[trigger] s[i]),
    ensures
        s.filter(p) == s,
    decreases s.len(),
{
    reveal(Seq::filter);
    if s.len() > 0 {
        let rest = s.drop_last();
        assert forall|i: int| 0 <= i < rest.len() implies p(#[trigger] rest[i]) by {
            assert(rest[i] == s[i]);
        }
        lemma_filter_all(rest, p);
        assert(p(s[s.len() - 1]));
        assert(rest.push(s.last()) =~= s);
    }
}

/// No output is listed exactly where no thumbnail is selected.
pub(crate) proof fn lemma_outputs_empty(s: Seq<PipThumbnail>, p: spec_fn(PipThumbnail) -> bool)
    ensures
        outputs_of(s, p).len() == 0 <==> !any(s, p),
    decreases s.len(),
{
    if s.len() > 0 {
        let rest = s.drop_last();
        lemma_outputs_empty(rest, p);
        if any(s, p) {
            let i = choose|i: int| 0 <= i < s.len() && p(#[trigger] s[i]);
            if i < rest.len() {
                assert(rest[i] == s[i]);
                assert(any(rest, p));
            } else {
                assert(p(s.last()));
            }
        } else {
            assert(!p(s[s.len() - 1]));
            assert forall|i: int| 0 <= i < rest.len() implies !p(#[trigger] rest[i]) by {
                assert(rest[i] == s[i]);
            }
        }
    }
}

} // verus!
