use std::collections::VecDeque;

use commonr::data::{
    Closxp, Envsxp, Globals, Listsxp, Primsxp, Promsxp, Sexp, SexpPayload, Sexprec, Sexptype,
    Sxpinfo, Symsxp, Update, Vecsxp,
};
use commonr::layout::layout;
use commonr::net::{take_frames, NetworkMessage};

type WireInfo = (i32, i32, i32, i32, i32, i32, i32, i32, i32, u32, u32, i32, u32);
type WirePayload = (u32, i64, i64, u64, u64, u64);
type WireRec = (u64, i32, String, WireInfo, u64, (u64, u64, u64), WirePayload);
type Wire = ([u64; 11], Vec<WireRec>);

fn globals() -> Globals {
    Globals {
        unbound_value: Sexp(0x10),
        nil_value: Sexp(0x20),
        missing_arg: Sexp(0x30),
        global_env: Sexp(0x40),
        empty_env: Sexp(0x50),
        base_env: Sexp(0x60),
        base_namespace: Sexp(0x70),
        namespace_registry: Sexp(0x80),
        src_ref: Sexp(0x90),
        in_bc_interpreter: Sexp(0xa0),
        current_expression: Sexp(0xb0),
    }
}

fn to_wire(u: &Update) -> Wire {
    let g = &u.globals;
    let globals = [
        g.unbound_value.0, g.nil_value.0, g.missing_arg.0, g.global_env.0, g.empty_env.0,
        g.base_env.0, g.base_namespace.0, g.namespace_registry.0, g.src_ref.0,
        g.in_bc_interpreter.0, g.current_expression.0,
    ];
    let recs = u
        .sexprecs
        .iter()
        .map(|r| {
            let i = &r.sxpinfo;
            let info = (
                i.ty, i.scalar, i.obj, i.alt, i.gp, i.mark, i.debug, i.trace, i.spare, i.gcgen,
                i.gccls, i.named, i.extra,
            );
            let payload = match r.payload {
                SexpPayload::Vecsxp(v) => (0, v.length, v.truelength, 0, 0, 0),
                SexpPayload::Primsxp(v) => (1, v.offset as i64, 0, 0, 0, 0),
                SexpPayload::Symsxp(v) => (2, 0, 0, v.pname.0, v.value.0, v.internal.0),
                SexpPayload::Listsxp(v) => (3, 0, 0, v.carval.0, v.cdrval.0, v.tagval.0),
                SexpPayload::Envsxp(v) => (4, 0, 0, v.frame.0, v.enclos.0, v.hashtab.0),
                SexpPayload::Closxp(v) => (5, 0, 0, v.formals.0, v.body.0, v.env.0),
                SexpPayload::Promsxp(v) => (6, 0, 0, v.value.0, v.expr.0, v.env.0),
            };
            let links = (r.attrib.0, r.gengc_next_node.0, r.gengc_prev_node.0);
            (r.address.0, r.ty.tag(), r.ty_name.clone(), info, r.sxpinfo_bits, links, payload)
        })
        .collect();
    (globals, recs)
}

fn from_wire(w: Wire) -> Update {
    let g = w.0;
    let globals = Globals {
        unbound_value: Sexp(g[0]),
        nil_value: Sexp(g[1]),
        missing_arg: Sexp(g[2]),
        global_env: Sexp(g[3]),
        empty_env: Sexp(g[4]),
        base_env: Sexp(g[5]),
        base_namespace: Sexp(g[6]),
        namespace_registry: Sexp(g[7]),
        src_ref: Sexp(g[8]),
        in_bc_interpreter: Sexp(g[9]),
        current_expression: Sexp(g[10]),
    };
    let sexprecs = w
        .1
        .into_iter()
        .map(|(address, tag, ty_name, i, bits, links, p)| {
            let payload = match p.0 {
                0 => SexpPayload::Vecsxp(Vecsxp { length: p.1, truelength: p.2 }),
                1 => SexpPayload::Primsxp(Primsxp { offset: p.1 as i32 }),
                2 => SexpPayload::Symsxp(Symsxp { pname: Sexp(p.3), value: Sexp(p.4), internal: Sexp(p.5) }),
                3 => SexpPayload::Listsxp(Listsxp { carval: Sexp(p.3), cdrval: Sexp(p.4), tagval: Sexp(p.5) }),
                4 => SexpPayload::Envsxp(Envsxp { frame: Sexp(p.3), enclos: Sexp(p.4), hashtab: Sexp(p.5) }),
                5 => SexpPayload::Closxp(Closxp { formals: Sexp(p.3), body: Sexp(p.4), env: Sexp(p.5) }),
                _ => SexpPayload::Promsxp(Promsxp { value: Sexp(p.3), expr: Sexp(p.4), env: Sexp(p.5) }),
            };
            Sexprec {
                address: Sexp(address),
                ty: Sexptype::try_from_tag(tag).unwrap(),
                ty_name,
                sxpinfo: Sxpinfo {
                    ty: i.0,
                    scalar: i.1,
                    obj: i.2,
                    alt: i.3,
                    gp: i.4,
                    mark: i.5,
                    debug: i.6,
                    trace: i.7,
                    spare: i.8,
                    gcgen: i.9,
                    gccls: i.10,
                    named: i.11,
                    extra: i.12,
                },
                sxpinfo_bits: bits,
                attrib: Sexp(links.0),
                gengc_next_node: Sexp(links.1),
                gengc_prev_node: Sexp(links.2),
                payload,
            }
        })
        .collect();
    Update { globals, sexprecs }
}

fn info(ty: i32) -> Sxpinfo {
    Sxpinfo {
        ty,
        scalar: 1,
        obj: 0,
        alt: 0,
        gp: 3,
        mark: 1,
        debug: 0,
        trace: 0,
        spare: 0,
        gcgen: 1,
        gccls: 2,
        named: 4,
        extra: 0,
    }
}

fn three_nodes() -> Update {
    let nil = Sexp(0x20);
    let root = Sexprec {
        address: Sexp(0x7f00_0000_1000),
        ty: Sexptype::LISTSXP,
        ty_name: "pairlist".to_string(),
        sxpinfo: info(2),
        sxpinfo_bits: 0x1234,
        attrib: nil,
        gengc_next_node: Sexp(0x5),
        gengc_prev_node: Sexp(0x6),
        payload: SexpPayload::Listsxp(Listsxp { carval: Sexp(0x7f00_0000_2000), cdrval: nil, tagval: nil }),
    };
    let car = Sexprec {
        address: Sexp(0x7f00_0000_2000),
        ty: Sexptype::REALSXP,
        ty_name: "double".to_string(),
        sxpinfo: info(14),
        sxpinfo_bits: 0x4e,
        attrib: nil,
        gengc_next_node: Sexp(0x7),
        gengc_prev_node: Sexp(0x8),
        payload: SexpPayload::Vecsxp(Vecsxp { length: 1, truelength: 0 }),
    };
    let nil_node = Sexprec {
        address: nil,
        ty: Sexptype::NILSXP,
        ty_name: "NULL".to_string(),
        sxpinfo: info(0),
        sxpinfo_bits: 0,
        attrib: nil,
        gengc_next_node: Sexp(0x9),
        gengc_prev_node: Sexp(0xa),
        payload: SexpPayload::Listsxp(Listsxp { carval: nil, cdrval: nil, tagval: nil }),
    };
    Update { globals: globals(), sexprecs: vec![root, car, nil_node] }
}

#[test]
fn snapshot_crosses_the_wire_in_three_chunks() {
    let snapshot = three_nodes();
    let encoded = bincode::serialize(&to_wire(&snapshot)).unwrap();
    let bytes = NetworkMessage::new(encoded).unwrap().to_bytes();
    let cuts = [1, bytes.len() / 2, bytes.len()];
    let mut buffer = VecDeque::new();
    let mut frames: Vec<Vec<u8>> = Vec::new();
    let mut start = 0;
    for (k, cut) in cuts.iter().enumerate() {
        buffer.extend(&bytes[start..*cut]);
        take_frames(&mut buffer, &mut frames);
        start = *cut;
        if k < 2 {
            assert!(frames.is_empty());
        }
    }
    assert_eq!(frames.len(), 1);
    assert!(buffer.is_empty());
    let decoded = from_wire(bincode::deserialize(&frames[0]).unwrap());
    assert_eq!(decoded, snapshot);

    let nodes = layout(&decoded);
    let g = &decoded.globals;
    let tree = decoded
        .sexprecs
        .iter()
        .zip(nodes.iter())
        .filter(|(r, n)| n.pos.is_some() && !g.is_global(r.address))
        .count();
    let side = decoded
        .sexprecs
        .iter()
        .zip(nodes.iter())
        .filter(|(r, n)| n.pos.is_some() && g.is_global(r.address))
        .count();
    assert_eq!(tree, 2);
    assert_eq!(side, 1);
}
