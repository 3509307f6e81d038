use std::collections::HashMap;

use commonr::data::{Listsxp, Sexp, SexpPayload, Sexprec, Sexptype, Sxpinfo, UnknownKind, Vecsxp};
use commonr::walk::Walker;

fn info() -> Sxpinfo {
    Sxpinfo {
        ty: 0,
        scalar: 0,
        obj: 0,
        alt: 0,
        gp: 0,
        mark: 0,
        debug: 0,
        trace: 0,
        spare: 0,
        gcgen: 0,
        gccls: 0,
        named: 0,
        extra: 0,
    }
}

fn node(address: u64, attrib: u64, payload: SexpPayload) -> Sexprec {
    Sexprec {
        address: Sexp(address),
        ty: Sexptype::LISTSXP,
        ty_name: "pairlist".to_string(),
        sxpinfo: info(),
        sxpinfo_bits: 0,
        attrib: Sexp(attrib),
        gengc_next_node: Sexp(0),
        gengc_prev_node: Sexp(0),
        payload,
    }
}

fn list(car: u64, cdr: u64, tag: u64) -> SexpPayload {
    SexpPayload::Listsxp(Listsxp { carval: Sexp(car), cdrval: Sexp(cdr), tagval: Sexp(tag) })
}

fn leaf() -> SexpPayload {
    SexpPayload::Vecsxp(Vecsxp { length: 1, truelength: 0 })
}

/// Drives a walk over an in-memory heap standing in for the host inspector.
fn walk(heap: &HashMap<u64, (i32, Sexprec)>, root: u64) -> Result<Vec<Sexprec>, UnknownKind> {
    let mut walker = Walker::new(Sexp(root));
    while let Some(addr) = walker.next() {
        let (tag, rec) = heap[&addr.0].clone();
        let ty = match walker.kind_of(tag) {
            Ok(ty) => ty,
            Err(_) => break,
        };
        assert_eq!(rec.payload.payload_variant(), ty.payload_shape());
        walker.record(Sexprec { ty, ..rec });
    }
    walker.finish()
}

fn heap(nodes: Vec<Sexprec>) -> HashMap<u64, (i32, Sexprec)> {
    nodes
        .into_iter()
        .map(|n| {
            let tag = match n.payload {
                SexpPayload::Vecsxp(_) => 14,
                _ => 2,
            };
            (n.address.0, (tag, n))
        })
        .collect()
}

fn addresses(recs: &[Sexprec]) -> Vec<u64> {
    recs.iter().map(|r| r.address.0).collect()
}

#[test]
fn two_node_cycle_yields_two_nodes() {
    let a = node(0xa, 0xb, list(0xb, 0xb, 0xb));
    let b = node(0xb, 0xa, list(0xa, 0xa, 0xa));
    let out = walk(&heap(vec![a, b]), 0xa).unwrap();
    assert_eq!(addresses(&out), vec![0xa, 0xb]);
}

#[test]
fn cycle_through_payload_links_only() {
    let nil = node(0x20, 0x20, list(0x20, 0x20, 0x20));
    let a = node(0xa, 0x20, list(0xb, 0x20, 0x20));
    let b = node(0xb, 0x20, list(0xa, 0x20, 0x20));
    let out = walk(&heap(vec![nil, a, b]), 0xa).unwrap();
    assert_eq!(addresses(&out), vec![0xa, 0x20, 0xb]);
}

#[test]
fn root_comes_first() {
    let nil = node(0x20, 0x20, list(0x20, 0x20, 0x20));
    let leaf_node = node(0x30, 0x20, leaf());
    let root = node(0x40, 0x20, list(0x30, 0x20, 0x20));
    let h = heap(vec![nil, leaf_node, root]);
    assert_eq!(walk(&h, 0x40).unwrap()[0].address, Sexp(0x40));
    assert_eq!(walk(&h, 0x30).unwrap()[0].address, Sexp(0x30));
}

#[test]
fn preorder_attributes_first_then_payload_links() {
    let nil = node(0x20, 0x20, list(0x20, 0x20, 0x20));
    let attrs = node(0x50, 0x20, leaf());
    let car = node(0x60, 0x20, leaf());
    let cdr = node(0x70, 0x20, list(0x80, 0x20, 0x20));
    let deep = node(0x80, 0x20, leaf());
    let root = node(0x10, 0x50, list(0x60, 0x70, 0x20));
    let out = walk(&heap(vec![nil, attrs, car, cdr, deep, root]), 0x10).unwrap();
    assert_eq!(addresses(&out), vec![0x10, 0x50, 0x20, 0x60, 0x70, 0x80]);
}

#[test]
fn shared_node_is_recorded_once() {
    let nil = node(0x20, 0x20, list(0x20, 0x20, 0x20));
    let shared = node(0x99, 0x20, leaf());
    let left = node(0x1, 0x20, list(0x99, 0x20, 0x20));
    let right = node(0x2, 0x20, list(0x99, 0x1, 0x20));
    let root = node(0x3, 0x20, list(0x1, 0x2, 0x99));
    let out = walk(&heap(vec![nil, shared, left, right, root]), 0x3).unwrap();
    assert_eq!(addresses(&out), vec![0x3, 0x20, 0x1, 0x99, 0x2]);
}

#[test]
fn long_chain_needs_no_recursion() {
    let mut nodes = vec![node(0x20, 0x20, list(0x20, 0x20, 0x20))];
    let n: u64 = 100_000;
    for i in 0..n {
        let next = if i + 1 < n { 0x1000 + i + 1 } else { 0x20 };
        nodes.push(node(0x1000 + i, 0x20, list(0x20, next, 0x20)));
    }
    let out = walk(&heap(nodes), 0x1000).unwrap();
    assert_eq!(out.len() as u64, n + 1);
}

#[test]
fn unknown_kind_aborts_the_capture() {
    let nil = node(0x20, 0x20, list(0x20, 0x20, 0x20));
    let root = node(0x5, 0x20, list(0x20, 0x20, 0x20));
    let mut h = heap(vec![nil, root]);
    h.get_mut(&0x20).unwrap().0 = 12;
    assert_eq!(walk(&h, 0x5).unwrap_err(), UnknownKind { tag: 12 });
}

#[test]
fn next_is_none_after_everything_is_visited() {
    let mut walker = Walker::new(Sexp(7));
    assert_eq!(walker.next(), Some(Sexp(7)));
    assert_eq!(walker.current(), Some(Sexp(7)));
    walker.record(node(7, 7, list(7, 7, 7)));
    assert_eq!(walker.current(), None);
    assert_eq!(walker.next(), None);
    assert_eq!(walker.finish().unwrap().len(), 1);
}

#[test]
fn unknown_kind_stops_handing_out_addresses() {
    let mut walker = Walker::new(Sexp(7));
    assert_eq!(walker.next(), Some(Sexp(7)));
    walker.record(node(7, 8, list(9, 9, 9)));
    assert_eq!(walker.next(), Some(Sexp(8)));
    assert_eq!(walker.kind_of(99), Err(UnknownKind { tag: 99 }));
    assert_eq!(walker.current(), None);
    assert_eq!(walker.next(), None);
    assert_eq!(walker.finish(), Err(UnknownKind { tag: 99 }));
}

#[test]
fn known_kind_keeps_the_walk_going() {
    let mut walker = Walker::new(Sexp(7));
    assert_eq!(walker.next(), Some(Sexp(7)));
    assert_eq!(walker.kind_of(2), Ok(Sexptype::LISTSXP));
    assert_eq!(walker.current(), Some(Sexp(7)));
}
