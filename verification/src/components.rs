//! Shape kinds drawn by the render systems.  The geometric components
//! themselves carry floating-point vectors and live with the rendering
//! front end; the kind tag is plain data and belongs to the core.

use vstd::prelude::*;

verus! {

#[derive(Clone, Copy, PartialEq, Eq, Structural, Debug)]
pub enum Shapes {
    Rectangle,
}

} // verus!
