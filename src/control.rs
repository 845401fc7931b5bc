use vstd::prelude::*;

verus! {

/// What the application does with the finished solid.
#[derive(Clone, Copy, Debug, PartialEq, Eq, Structural)]
pub enum AppMode {
    /// Show it in a window.
    View,
    /// Write it to an STL file.
    Output,
}

impl Default for AppMode {
    fn default() -> (r: Self)
        ensures
            r == AppMode::View,
    {
        AppMode::View
    }
}

/// The keys that the viewer reacts to.
#[derive(Clone, Copy, Debug, PartialEq, Eq, Structural)]
pub enum ViewKey {
    /// Leave the viewer.
    Quit,
    /// Show or hide the wireframe.
    Wireframe,
    /// Switch between orthographic and perspective projection.
    Projection,
    /// Any other key.
    Other,
}

/// The camera's projection.
#[derive(Clone, Copy, Debug, PartialEq, Eq, Structural)]
pub enum Projection {
    Orthographic,
    Perspective,
}

/// The viewer's own state between frames.
#[derive(Clone, Copy, Debug, PartialEq, Eq, Structural)]
pub struct ViewState {
    pub should_exit: bool,
    pub render_wireframe: bool,
}

impl Default for ViewState {
    fn default() -> (r: Self)
        ensures
            !r.should_exit,
            !r.render_wireframe,
    {
        ViewState { should_exit: false, render_wireframe: false }
    }
}

impl ViewState {
    /// Reacts to one key press while the camera uses `projection`. Returns
    /// whether the key was handled (and the view needs redrawing), and the
    /// projection the camera is to switch to, if any.
    pub fn handle_key(&mut self, key: ViewKey, projection: Projection) -> (r: (bool, Option<Projection>))
        ensures
            r.0 == (key != ViewKey::Other),
            final(self).should_exit == (old(self).should_exit || key == ViewKey::Quit),
            final(self).render_wireframe == (old(self).render_wireframe != (key == ViewKey::Wireframe)),
            r.1 == if key == ViewKey::Projection {
                Some(
                    match projection {
                        Projection::Orthographic => Projection::Perspective,
                        Projection::Perspective => Projection::Orthographic,
                    },
                )
            } else {
                None
            },
    {
        match key {
            ViewKey::Quit => {
                self.should_exit = true;
                (true, None)
            },
            ViewKey::Wireframe => {
                self.render_wireframe = !self.render_wireframe;
                (true, None)
            },
            ViewKey::Projection => {
                let next = match projection {
                    Projection::Orthographic => Projection::Perspective,
                    Projection::Perspective => Projection::Orthographic,
                };
                (true, Some(next))
            },
            ViewKey::Other => (false, None),
        }
    }
}

} // verus!
