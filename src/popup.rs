use vstd::prelude::*;

use crate::layout::{LayoutNode, Rect};

verus! {

/// Where a popup stands on the screen.
#[derive(Debug, Clone, Copy, PartialEq, Eq, Structural)]
pub enum PopupPosition {
    TopRight,
    TopLeft,
    BottomRight,
    BottomLeft,
    Center,
}

/// A floating window of a given size, with a layout of its own.
pub struct PopupWindow {
    pub layout: LayoutNode,
    pub position: PopupPosition,
    pub width: usize,
    pub height: usize,
}

impl PopupWindow {
    /// The popup fits in `container` where its position needs it to.
    pub open spec fn fits_in(self, container: Rect) -> bool {
        match self.position {
            PopupPosition::TopRight | PopupPosition::BottomRight => self.width <= container.width,
            PopupPosition::BottomLeft => self.height <= container.height,
            PopupPosition::Center => self.width <= container.width && self.height <= container.height,
            PopupPosition::TopLeft => true,
        }
    }

    /// The region of the popup inside `container`.
    pub open spec fn rect_spec(self, container: Rect) -> Rect {
        match self.position {
            PopupPosition::TopRight | PopupPosition::BottomRight => Rect {
                x: (container.width - self.width) as usize,
                y: 0,
                width: self.width,
                height: self.height,
            },
            PopupPosition::TopLeft => Rect { x: 0, y: 0, width: self.width, height: self.height },
            PopupPosition::BottomLeft => Rect {
                x: 0,
                y: (container.height - self.height) as usize,
                width: self.width,
                height: self.height,
            },
            PopupPosition::Center => Rect {
                x: (container.width / 2 - self.width / 2) as usize,
                y: (container.height / 2 - self.height / 2) as usize,
                width: self.width,
                height: self.height,
            },
        }
    }

    /// The region of the popup inside `container`: in the corner that its
    /// position names (at the top for both right-hand positions), or centred.
    pub fn get_rect(&mut self, container: &Rect) -> (r: Rect)
        requires
            old(self).fits_in(*container),
        ensures
            r == old(self).rect_spec(*container),
            *final(self) == *old(self),
    {
        match self.position {
            PopupPosition::TopRight | PopupPosition::BottomRight => Rect {
                x: container.width - self.width,
                y: 0,
                width: self.width,
                height: self.height,
            },
            PopupPosition::TopLeft => Rect { x: 0, y: 0, width: self.width, height: self.height },
            PopupPosition::BottomLeft => Rect {
                x: 0,
                y: container.height - self.height,
                width: self.width,
                height: self.height,
            },
            PopupPosition::Center => Rect {
                x: container.width / 2 - self.width / 2,
                y: container.height / 2 - self.height / 2,
                width: self.width,
                height: self.height,
            },
        }
    }
}

} // verus!
