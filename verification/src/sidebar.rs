//! Width of the file-tree sidebar and the drag that resizes it.

use vstd::prelude::*;

verus! {

/// Narrowest width, in pixels, that the sidebar can be dragged to.
pub const MIN_SIDEBAR_WIDTH: u32 = 50;

/// Widest width, in pixels, that the sidebar can be dragged to.
pub const MAX_SIDEBAR_WIDTH: u32 = 600;

/// Width, in pixels, of a freshly created sidebar.
pub const INITIAL_SIDEBAR_WIDTH: u32 = 200;

/// The pointer position `x` brought into the range of permitted widths.
pub open spec fn clamp_width(x: int) -> int {
    if x < MIN_SIDEBAR_WIDTH {
        MIN_SIDEBAR_WIDTH as int
    } else if x > MAX_SIDEBAR_WIDTH {
        MAX_SIDEBAR_WIDTH as int
    } else {
        x
    }
}

/// The sidebar's width and whether a resize drag is in progress.
///
/// The width always lies between [`MIN_SIDEBAR_WIDTH`] and
/// [`MAX_SIDEBAR_WIDTH`].
pub struct SidebarLayout {
    width: u32,
    dragging: bool,
}

impl SidebarLayout {
    #[verifier::type_invariant]
    spec fn width_in_range(self) -> bool {
        MIN_SIDEBAR_WIDTH <= self.width <= MAX_SIDEBAR_WIDTH
    }

    /// The current width in pixels.
    pub closed spec fn spec_width(&self) -> u32 {
        self.width
    }

    /// Whether a resize drag is in progress.
    pub closed spec fn spec_is_dragging(&self) -> bool {
        self.dragging
    }

    /// A sidebar of the initial width that is not being dragged.
    pub fn new() -> (layout: Self)
        ensures
            layout.width() == INITIAL_SIDEBAR_WIDTH,
            !layout.is_dragging(),
    {
        SidebarLayout { width: INITIAL_SIDEBAR_WIDTH, dragging: false }
    }

    /// The current width in pixels, always within the permitted range.
    #[verifier::when_used_as_spec(spec_width)]
    pub fn width(&self) -> (w: u32)
        ensures
            w == self.spec_width(),
            MIN_SIDEBAR_WIDTH <= w <= MAX_SIDEBAR_WIDTH,
    {
        proof {
            use_type_invariant(self);
        }
        self.width
    }

    /// Whether a resize drag is in progress.
    #[verifier::when_used_as_spec(spec_is_dragging)]
    pub fn is_dragging(&self) -> (d: bool)
        ensures
            d == self.spec_is_dragging(),
    {
        self.dragging
    }

    /// Starts a resize drag. The width is untouched until the pointer moves.
    pub fn begin_drag(&mut self)
        ensures
            final(self).is_dragging(),
            final(self).width() == old(self).width(),
    {
        proof {
            use_type_invariant(&*self);
        }
        self.dragging = true;
    }

    /// Follows the pointer to horizontal position `pointer_x` (in pixels from
    /// the window's left edge). During a drag the width becomes `pointer_x`
    /// clamped into the permitted range; outside a drag nothing changes.
    /// Returns whether a drag was in progress.
    pub fn update_drag(&mut self, pointer_x: i32) -> (tracked_pointer: bool)
        ensures
            tracked_pointer == old(self).is_dragging(),
            final(self).is_dragging() == old(self).is_dragging(),
            final(self).width() == if old(self).is_dragging() {
                clamp_width(pointer_x as int)
            } else {
                old(self).width() as int
            },
    {
        if !self.dragging {
            return false;
        }
        if (pointer_x as i64) < (MIN_SIDEBAR_WIDTH as i64) {
            self.width = MIN_SIDEBAR_WIDTH;
        } else if (pointer_x as i64) > (MAX_SIDEBAR_WIDTH as i64) {
            self.width = MAX_SIDEBAR_WIDTH;
        } else {
            self.width = pointer_x as u32;
        }
        true
    }

    /// Ends a resize drag, keeping the width reached. Returns whether a drag
    /// was in progress.
    pub fn end_drag(&mut self) -> (was_dragging: bool)
        ensures
            was_dragging == old(self).is_dragging(),
            !final(self).is_dragging(),
            final(self).width() == old(self).width(),
    {
        proof {
            use_type_invariant(&*self);
        }
        let was_dragging = self.dragging;
        self.dragging = false;
        was_dragging
    }
}

} // verus!
