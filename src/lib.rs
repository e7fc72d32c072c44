// The geometry pipeline's integer and text logic: the unit cube's table, the
// OBJ mesh reader, painter's-algorithm ordering and the viewer's input state.
use vstd::prelude::*;

pub mod cube;
pub mod depth;
pub mod obj;
pub mod text;
pub mod view;

verus! {

} // verus!
