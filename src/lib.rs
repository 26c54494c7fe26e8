//! Build-time preparation of the shader programs of a particle-trajectory
//! view over a lattice-fluid simulation (import expansion, assembly per stage,
//! artifact naming, target selection), and the plain-value logic that sizes
//! and orders its GPU work each frame.
pub mod text;
pub mod scan;
pub mod expand;
pub mod program;
pub mod batch;
pub mod frame;
pub mod trajectory;
