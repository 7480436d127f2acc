# cad_scene

The verified core of a CAD scene, written in Verus: every function under
`src/` carries a `requires` / `ensures` contract that Verus proves.

* `src/` – the library. Floating-point values (coordinates, radii, datum
  directions, scales) are carried as the bit patterns of their `f64`s; the
  library stores, copies and compares them but never computes with them.
  Drawing data read from an `acadrust` document is held as plain values
  (`drawing::Drawing`, `grip::GripEntity`, `dgn_linestyle::DgnComponent`, …).
* `app/` – ordinary Rust around the library: converting an `acadrust`
  document into those plain values and back, and the floating-point
  geometry (flattening proxy-graphics arcs, normalising and comparing datum
  directions, deciding whether a polyline segment bulges).
* `tests/` – tests of the library on concrete values.

The few calls into outside crates that the proofs rest on are marked
`#[verifier::external_body]`, each with a doc comment saying what its
contract claims: `acadrust::tables::normalize_name`, the block table of a new
`acadrust::CadDocument`, `String::push`, and lookups in `rustc_hash` maps and
sets.
