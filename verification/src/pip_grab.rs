//! Moving and resizing a thumbnail with the pointer.
//!
//! A grab decides what a pointer event does; forwarding the event and carrying out the effect is
//! left to the caller.
use crate::geometry::{
    is_inside, is_offset, is_pixel_point, PixelPoint, Point, Rectangle, ResizeEdge, Size,
};
use crate::number::{Arithmetic, Number};
use crate::pip::{any, is_changed, move_to, pull_to, with_id, PipManager};
use crate::thumbnail::{is_output_size, zero, OutputId, Outputs, PipId};
use vstd::prelude::*;

verus! {

/// What the pointer does to the thumbnail.
#[derive(Clone, Copy, Debug)]
pub enum PipGrabMode {
    /// It moves the thumbnail.
    Move {
        /// Where in the thumbnail the pointer holds it.
        grab_offset: Point,
    },
    /// It resizes the thumbnail.
    Resize {
        /// The edges that it pulls at.
        edges: ResizeEdge,
    },
}

/// How a grab started.
#[derive(Clone, Copy, Debug)]
pub struct GrabStartData {
    /// The button that was pressed.
    pub button: u32,
    /// Where the pointer was.
    pub location: Point,
}

/// A grab of the pointer by a thumbnail.
#[derive(Clone, Copy, Debug)]
pub struct PipPointerGrab {
    start_data: GrabStartData,
    pip_id: PipId,
    output: OutputId,
    mode: PipGrabMode,
}

/// What follows from a motion of the pointer.
#[derive(Clone, Copy, Debug, PartialEq, Eq, Structural)]
pub enum GrabEffect {
    /// The grab is over.
    Unset,
    /// Nothing.
    Nothing,
    /// The output is drawn again.
    Redraw(OutputId),
}

/// `pos` is a global location in coordinates of an output that begins at `output_loc`.
pub open spec fn is_within_output<A: Arithmetic>(
    a: &A,
    location: Point,
    output_loc: PixelPoint,
    pos: Point,
) -> bool {
    exists|origin: Point| #[trigger]
        is_pixel_point(a, output_loc, origin) && is_offset(a, location, origin, pos)
}

/// `on` tells whether the pointer is on the output.
pub open spec fn is_pointer_on<H: Arithmetic + Outputs>(
    h: &H,
    output: OutputId,
    pos: Point,
    on: bool,
) -> bool {
    exists|bounds: Size| #[trigger]
        is_output_size(h, output, bounds) && is_inside(
            h,
            Rectangle { loc: Point { x: zero(), y: zero() }, size: bounds },
            pos,
            on,
        )
}

/// What a motion to `pos` does to the grabbed thumbnail.
pub open spec fn is_dragged<H: Arithmetic + Outputs>(
    h: &H,
    grab: PipPointerGrab,
    pos: Point,
    before: PipManager,
    after: PipManager,
) -> bool {
    match grab.spec_mode() {
        PipGrabMode::Move { grab_offset } => exists|target: Point, output: OutputId|
            #![trigger is_offset(h, pos, grab_offset, target), is_changed(before, grab.spec_pip_id(), move_to(h, target), after, Some(output))]
            is_offset(h, pos, grab_offset, target) && is_changed(
                before,
                grab.spec_pip_id(),
                move_to(h, target),
                after,
                Some(output),
            ),
        PipGrabMode::Resize { edges } => exists|output: OutputId| #[trigger]
            is_changed(
                before,
                grab.spec_pip_id(),
                pull_to(h, edges, pos),
                after,
                Some(output),
            ),
    }
}

/// What follows from a motion to `pos`: a thumbnail is moved only while the pointer is on its
/// output, and resized wherever the pointer is.
pub open spec fn is_followed<H: Arithmetic + Outputs>(
    h: &H,
    grab: PipPointerGrab,
    pos: Point,
    before: PipManager,
    after: PipManager,
    effect: GrabEffect,
) -> bool {
    if grab.spec_mode() is Move {
        exists|on: bool| #[trigger]
            is_pointer_on(h, grab.spec_output(), pos, on) && if on {
                effect == GrabEffect::Redraw(grab.spec_output()) && is_dragged(
                    h,
                    grab,
                    pos,
                    before,
                    after,
                )
            } else {
                effect == GrabEffect::Nothing && after == before
            }
    } else {
        effect == GrabEffect::Redraw(grab.spec_output()) && is_dragged(h, grab, pos, before, after)
    }
}

/// What a motion to a global location does. The grab ends where its thumbnail or its output is
/// gone, and nothing happens while the output has no place.
pub open spec fn is_motion<H: Arithmetic + Outputs>(
    h: &H,
    grab: PipPointerGrab,
    output_alive: bool,
    output_loc: Option<PixelPoint>,
    location: Point,
    before: PipManager,
    after: PipManager,
    effect: GrabEffect,
) -> bool {
    &&& if !any(before@, with_id(grab.spec_pip_id())) || !output_alive {
        effect == GrabEffect::Unset
    } else {
        match output_loc {
            Some(loc) => exists|pos: Point| #[trigger]
                is_within_output(h, location, loc, pos) && is_followed(
                    h,
                    grab,
                    pos,
                    before,
                    after,
                    effect,
                ),
            None => effect == GrabEffect::Nothing,
        }
    }
    &&& effect !is Redraw ==> after == before
}

/// The button is not among the pressed ones.
pub open spec fn is_released(button: u32, pressed: Seq<u32>) -> bool {
    !pressed.contains(button)
}

impl PipPointerGrab {
    /// How the grab started.
    pub closed spec fn spec_start_data(self) -> GrabStartData {
        self.start_data
    }

    /// The thumbnail.
    pub closed spec fn spec_pip_id(self) -> PipId {
        self.pip_id
    }

    /// The output of the thumbnail.
    pub closed spec fn spec_output(self) -> OutputId {
        self.output
    }

    /// What the pointer does.
    pub closed spec fn spec_mode(self) -> PipGrabMode {
        self.mode
    }

    /// A grab that moves a thumbnail.
    pub fn new_move(
        start_data: GrabStartData,
        pip_id: PipId,
        output: OutputId,
        grab_offset: Point,
    ) -> (grab: PipPointerGrab)
        ensures
            grab.spec_start_data() == start_data,
            grab.spec_pip_id() == pip_id,
            grab.spec_output() == output,
            grab.spec_mode() == (PipGrabMode::Move { grab_offset }),
    {
        PipPointerGrab { start_data, pip_id, output, mode: PipGrabMode::Move { grab_offset } }
    }

    /// A grab that resizes a thumbnail.
    pub fn new_resize(
        start_data: GrabStartData,
        pip_id: PipId,
        output: OutputId,
        edges: ResizeEdge,
    ) -> (grab: PipPointerGrab)
        ensures
            grab.spec_start_data() == start_data,
            grab.spec_pip_id() == pip_id,
            grab.spec_output() == output,
            grab.spec_mode() == (PipGrabMode::Resize { edges }),
    {
        PipPointerGrab { start_data, pip_id, output, mode: PipGrabMode::Resize { edges } }
    }

    /// How the grab started.
    pub fn start_data(&self) -> (start_data: &GrabStartData)
        ensures
            *start_data == self.spec_start_data(),
    {
        &self.start_data
    }

    /// The output of the thumbnail.
    pub fn output(&self) -> (output: OutputId)
        ensures
            output == self.spec_output(),
    {
        self.output
    }

    /// The output to draw again, while it is there.
    pub fn queue_redraw_if_output_alive(&self, output_alive: bool) -> (redraw: Option<OutputId>)
        ensures
            redraw == (if output_alive {
                Some(self.spec_output())
            } else {
                None
            }),
    {
        if output_alive {
            Some(self.output)
        } else {
            None
        }
    }

    /// A global location in coordinates of the output, if the output has a place.
    pub fn pos_within_output<A: Arithmetic>(
        &self,
        a: &A,
        output_loc: Option<PixelPoint>,
        location: Point,
    ) -> (pos: Option<Point>)
        ensures
            match (output_loc, pos) {
                (Some(loc), Some(pos)) => is_within_output(a, location, loc, pos),
                (None, None) => true,
                _ => false,
            },
    {
        match output_loc {
            Some(loc) => {
                let origin = loc.to_point(a);
                Some(location.offset_from(a, origin))
            },
            None => None,
        }
    }

    /// Whether the pointer is on the output.
    fn is_on_output<H: Arithmetic + Outputs>(&self, h: &H, pos: Point) -> (on: bool)
        ensures
            is_pointer_on(h, self.spec_output(), pos, on),
    {
        let origin = Point::new(Number::zero(), Number::zero());
        let bounds = h.output_size(self.output);
        Rectangle::new(origin, bounds).contains(h, pos)
    }

    /// What a motion of the pointer to a global location does.
    ///
    /// `output_alive` tells whether the output is still there, and `output_loc` where it begins.
    pub fn motion<H: Arithmetic + Outputs>(
        &self,
        h: &H,
        pips: &mut PipManager,
        output_alive: bool,
        output_loc: Option<PixelPoint>,
        location: Point,
    ) -> (effect: GrabEffect)
        ensures
            is_motion(
                h,
                *self,
                output_alive,
                output_loc,
                location,
                *old(pips),
                *final(pips),
                effect,
            ),
            old(pips).wf() ==> final(pips).wf(),
    {
        if pips.find(self.pip_id).is_none() || !output_alive {
            return GrabEffect::Unset;
        }

        let pos = match self.pos_within_output(h, output_loc, location) {
            Some(pos) => pos,
            None => return GrabEffect::Nothing,
        };

        let changed = match self.mode {
            PipGrabMode::Move { grab_offset } => {
                let on = self.is_on_output(h, pos);
                if !on {
                    assert(is_followed(h, *self, pos, *old(pips), *pips, GrabEffect::Nothing));
                    return GrabEffect::Nothing;
                }
                assert(is_pointer_on(h, self.spec_output(), pos, true));
                let target = pos.offset_from(h, grab_offset);
                let changed = pips.move_pip(h, self.pip_id, target);
                assert(is_changed(
                    *old(pips),
                    self.spec_pip_id(),
                    move_to(h, target),
                    *pips,
                    Some(changed->0),
                ));
                changed
            },
            PipGrabMode::Resize { edges } => {
                let changed = pips.resize_pip(h, self.pip_id, edges, pos);
                assert(is_changed(
                    *old(pips),
                    self.spec_pip_id(),
                    pull_to(h, edges, pos),
                    *pips,
                    Some(changed->0),
                ));
                changed
            },
        };
        assert(is_dragged(h, *self, pos, *old(pips), *pips));
        match self.queue_redraw_if_output_alive(output_alive) {
            Some(output) if changed.is_some() => GrabEffect::Redraw(output),
            _ => GrabEffect::Nothing,
        }
    }

    /// Whether the grab is over after a button event that leaves these buttons pressed.
    pub fn button(&self, pressed: &Vec<u32>) -> (unset: bool)
        ensures
            unset == is_released(self.spec_start_data().button, pressed@),
    {
        let mut i: usize = 0;
        while i < pressed.len()
            invariant
                i <= pressed.len(),
                forall|j: int| 0 <= j < i ==> pressed@[j] != self.spec_start_data().button,
            decreases pressed.len() - i,
        {
            if pressed[i] == self.start_data.button {
                return false;
            }
            i += 1;
        }
        true
    }
}

} // verus!
