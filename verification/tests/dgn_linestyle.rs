use cad_scene::dgn_linestyle::{
    symbol_blocks, DgnComponent, DgnComponentKind, DgnDefinition, DgnSymbol,
};
use std::collections::HashMap;

fn component(kind: DgnComponentKind, refs: Vec<u64>, scale: f64) -> DgnComponent {
    DgnComponent { kind, refs, scale: scale.to_bits() }
}

fn pipe() -> (Vec<DgnDefinition>, HashMap<u64, DgnComponent>) {
    let mut comps = HashMap::new();
    comps.insert(1, component(DgnComponentKind::Compound, vec![2, 3, 6, 4, 99], 1.0));
    comps.insert(2, component(DgnComponentKind::Symbol, vec![100], 0.5));
    // A point component that loops back to the root and repeats a block.
    comps.insert(3, component(DgnComponentKind::Point, vec![5, 1, 2], 1.0));
    comps.insert(4, component(DgnComponentKind::Symbol, vec![101], 1.0));
    comps.insert(5, component(DgnComponentKind::Symbol, vec![100], 2.0));
    // A stroke is not walked, even when it lists a symbol.
    comps.insert(6, component(DgnComponentKind::Stroke, vec![7], 1.0));
    comps.insert(7, component(DgnComponentKind::Symbol, vec![102], 1.0));
    let defs = vec![DgnDefinition { name: "Pipe".to_string(), root_component: 1 }];
    (defs, comps)
}

#[test]
fn symbols_come_in_tree_order_each_block_once() {
    let (defs, comps) = pipe();
    assert_eq!(
        symbol_blocks(&defs, &comps, "PIPE"),
        vec![
            DgnSymbol { block: 100, scale: 0.5f64.to_bits() },
            DgnSymbol { block: 101, scale: 1.0f64.to_bits() },
        ]
    );
}

#[test]
fn an_unknown_line_style_has_no_symbols() {
    let (defs, comps) = pipe();
    assert!(symbol_blocks(&defs, &comps, "Cable").is_empty());
    let defs = vec![DgnDefinition { name: "Cable".to_string(), root_component: 42 }];
    assert!(symbol_blocks(&defs, &comps, "cable").is_empty());
}

#[test]
fn a_symbol_without_references_draws_nothing() {
    let mut comps = HashMap::new();
    comps.insert(1, component(DgnComponentKind::Compound, vec![2], 1.0));
    comps.insert(2, component(DgnComponentKind::Symbol, vec![], 1.0));
    let defs = vec![DgnDefinition { name: "Empty".to_string(), root_component: 1 }];
    assert!(symbol_blocks(&defs, &comps, "Empty").is_empty());
}
