//! Verified core of a CAD scene.
//!
//! * `proxy_graphics`: the decoder of proxy-entity preview blobs.
//! * `parametric_constraints`: constraint references, kinds and the
//!   per-scope constraint set.
//! * `scene`: scene-level constraint bookkeeping (display overrides,
//!   enabling, parameter usage, move expansion, duplication, automatic
//!   constraining) and block-table operations.
//! * `inference`: turning relations found between objects into constraint
//!   proposals.
//! * `drawing`: the block table of a drawing and its entities, as far as
//!   block operations and cache rebuilds read them.
//! * `grip`: grip-drag state and what a grip drag holds while solving.
//! * `solid_history`: solid-history property fields and choices.
//! * `annotative`: annotation scaling: annotative styles and entities, and
//!   the per-object annotation contexts of the object store.
//! * `dgn_linestyle`: the symbol blocks of a DGN line style.
//! * `text`: string helpers proved against their character-level meaning.

pub mod annotative;
pub mod dgn_linestyle;
pub mod drawing;
pub mod grip;
pub mod inference;
pub mod parametric_constraints;
pub mod proxy_graphics;
pub mod scene;
pub mod solid_history;
pub mod text;
