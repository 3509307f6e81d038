use commonr::data::{
    Globals, Listsxp, PayloadShape, Primsxp, Sexp, SexpFormatter, SexpPayload, Sexprec, Sexptype,
    Sxpinfo, Symsxp, UnknownKind, Update, Vecsxp,
};

fn globals() -> Globals {
    Globals {
        unbound_value: Sexp(0x10),
        nil_value: Sexp(0x20),
        missing_arg: Sexp(0x30),
        global_env: Sexp(0x40),
        empty_env: Sexp(0x50),
        base_env: Sexp(0x60),
        base_namespace: Sexp(0x70),
        namespace_registry: Sexp(0x80),
        src_ref: Sexp(0x90),
        in_bc_interpreter: Sexp(0xa0),
        current_expression: Sexp(0xb0),
    }
}

fn info(gp: i32) -> Sxpinfo {
    Sxpinfo {
        ty: 2,
        scalar: 0,
        obj: 1,
        alt: 0,
        gp,
        mark: 1,
        debug: 0,
        trace: 0,
        spare: 0,
        gcgen: 1,
        gccls: 3,
        named: 7,
        extra: 0,
    }
}

fn pair(address: u64, car: u64, cdr: u64) -> Sexprec {
    Sexprec {
        address: Sexp(address),
        ty: Sexptype::LISTSXP,
        ty_name: "pairlist".to_string(),
        sxpinfo: info(0),
        sxpinfo_bits: 5,
        attrib: Sexp(0x20),
        gengc_next_node: Sexp(0x1),
        gengc_prev_node: Sexp(0x2),
        payload: SexpPayload::Listsxp(Listsxp { carval: Sexp(car), cdrval: Sexp(cdr), tagval: Sexp(0x20) }),
    }
}

#[test]
fn is_global_matches_every_special_value() {
    let g = globals();
    for a in [0x10u64, 0x20, 0x30, 0x40, 0x50, 0x60, 0x70, 0x80, 0x90, 0xa0, 0xb0] {
        assert!(g.is_global(Sexp(a)));
    }
    assert!(!g.is_global(Sexp(0x11)));
    assert!(!g.is_global(Sexp(0)));
}

#[test]
fn fmt_ptr_names_special_values() {
    let g = globals();
    assert_eq!(g.fmt_ptr(Sexp(0x20)), "@20 (R_NilValue)");
    assert_eq!(g.fmt_ptr(Sexp(0x10)), "@10 (R_UnboundValue)");
    assert_eq!(g.fmt_ptr(Sexp(0xb0)), "@b0 (R_CurrentExpression)");
    assert_eq!(g.fmt_ptr(Sexp(0x90)), "@90 (R_Srcref)");
}

#[test]
fn fmt_ptr_plain_address_is_lower_hex() {
    let g = globals();
    assert_eq!(g.fmt_ptr(Sexp(0x55d0_a3f4_2c18)), "@55d0a3f42c18");
    assert_eq!(g.fmt_ptr(Sexp(0)), "@0");
    assert_eq!(g.fmt_ptr(Sexp(u64::MAX)), "@ffffffffffffffff");
}

#[test]
fn kind_tags_round_trip() {
    let all = [
        Sexptype::NILSXP, Sexptype::SYMSXP, Sexptype::LISTSXP, Sexptype::CLOSXP,
        Sexptype::ENVSXP, Sexptype::PROMSXP, Sexptype::LANGSXP, Sexptype::SPECIALSXP,
        Sexptype::BUILTINSXP, Sexptype::CHARSXP, Sexptype::LGLSXP, Sexptype::INTSXP,
        Sexptype::REALSXP, Sexptype::CPLXSXP, Sexptype::STRSXP, Sexptype::DOTSXP,
        Sexptype::ANYSXP, Sexptype::VECSXP, Sexptype::EXPRSXP, Sexptype::BCODESXP,
        Sexptype::EXTPTRSXP, Sexptype::WEAKREFSXP, Sexptype::RAWSXP, Sexptype::S4SXP,
        Sexptype::NEWSXP, Sexptype::FREESXP,
    ];
    for ty in all {
        assert_eq!(Sexptype::try_from_tag(ty.tag()), Ok(ty));
    }
    assert_eq!(Sexptype::INTSXP.tag(), 13);
    assert_eq!(Sexptype::FREESXP.tag(), 31);
}

#[test]
fn closure_tag_has_no_alias() {
    assert_eq!(Sexptype::try_from_tag(3), Ok(Sexptype::CLOSXP));
    assert_eq!(Sexptype::try_from_tag(99), Err(UnknownKind { tag: 99 }));
}

#[test]
fn unknown_tags_are_refused() {
    assert_eq!(Sexptype::try_from_tag(11), Err(UnknownKind { tag: 11 }));
    assert_eq!(Sexptype::try_from_tag(12), Err(UnknownKind { tag: 12 }));
    assert_eq!(Sexptype::try_from_tag(26), Err(UnknownKind { tag: 26 }));
    assert_eq!(Sexptype::try_from_tag(-1), Err(UnknownKind { tag: -1 }));
}

#[test]
fn kind_names_are_variant_names() {
    assert_eq!(Sexptype::LISTSXP.name(), "LISTSXP");
    assert_eq!(Sexptype::S4SXP.name(), "S4SXP");
}

#[test]
fn payload_shapes_follow_kinds() {
    assert_eq!(Sexptype::SYMSXP.payload_shape(), PayloadShape::Symbol);
    assert_eq!(Sexptype::LANGSXP.payload_shape(), PayloadShape::List);
    assert_eq!(Sexptype::EXPRSXP.payload_shape(), PayloadShape::List);
    assert_eq!(Sexptype::CLOSXP.payload_shape(), PayloadShape::Closure);
    assert_eq!(Sexptype::ENVSXP.payload_shape(), PayloadShape::Environment);
    assert_eq!(Sexptype::PROMSXP.payload_shape(), PayloadShape::Promise);
    assert_eq!(Sexptype::BUILTINSXP.payload_shape(), PayloadShape::Primitive);
    assert_eq!(Sexptype::REALSXP.payload_shape(), PayloadShape::Vector);
    assert_eq!(Sexptype::NILSXP.payload_shape(), PayloadShape::List);
    assert_eq!(Sexptype::WEAKREFSXP.payload_shape(), PayloadShape::List);
}

#[test]
fn pointers_are_named_and_ordered() {
    let p = SexpPayload::Symsxp(Symsxp { pname: Sexp(1), value: Sexp(2), internal: Sexp(3) });
    assert_eq!(p.pointers(), vec![("pname", Sexp(1)), ("value", Sexp(2)), ("internal", Sexp(3))]);
    let l = SexpPayload::Listsxp(Listsxp { carval: Sexp(4), cdrval: Sexp(5), tagval: Sexp(6) });
    assert_eq!(l.pointers(), vec![("carval", Sexp(4)), ("cdrval", Sexp(5)), ("tagval", Sexp(6))]);
}

#[test]
fn leaf_payloads_have_no_pointers() {
    let v = SexpPayload::Vecsxp(Vecsxp { length: 3, truelength: 0 });
    assert!(v.pointers().is_empty());
    let p = SexpPayload::Primsxp(Primsxp { offset: 7 });
    assert!(p.pointers().is_empty());
}

#[test]
fn node_text_header_lines() {
    let g = globals();
    let r = pair(0xabc, 0x20, 0x20);
    let text = SexpFormatter(&g, &r).to_string();
    let lines: Vec<&str> = text.split('\n').collect();
    assert_eq!(lines[0], "address: @abc, type: pairlist/LISTSXP");
    assert_eq!(lines[1], format!("sxpinfo: 0b{}101", "0".repeat(61)));
    assert_eq!(
        lines[4],
        "            2      0   1   0  0b0000000000000000     1     0     0     0     1     3     7     0"
    );
}

#[test]
fn node_text_gp_bits_and_links() {
    let g = globals();
    let mut r = pair(0xabc, 0x20, 0x1234);
    r.sxpinfo = info(0b1000_0000_0000_0101);
    let text = SexpFormatter(&g, &r).to_string();
    let lines: Vec<&str> = text.split('\n').collect();
    assert!(lines[4].contains("0b1000000000000101"));
    assert_eq!(
        lines[11],
        "                  value: 1    0    1    0    0    0    0    0    0    0    0    0    0    0    0    1    "
    );
    assert_eq!(lines[12], "attrib @20 (R_NilValue)");
    assert_eq!(lines[13], "gengc_next_node @1");
    assert_eq!(lines[14], "gengc_prev_node @2");
    let expected = format!(
        "{}{:35}{}{:35}{}{:35}",
        "carval: ", "@20 (R_NilValue)", "cdrval: ", "@1234", "tagval: ", "@20 (R_NilValue)"
    );
    assert_eq!(lines[15], expected);
    assert_eq!(lines.len(), 16);
}

#[test]
fn node_text_negative_fields_and_vector_payload() {
    let g = globals();
    let mut r = pair(0x1, 0x2, 0x3);
    r.sxpinfo = info(-1);
    r.sxpinfo.named = -12;
    r.payload = SexpPayload::Vecsxp(Vecsxp { length: -4, truelength: i64::MAX });
    let text = SexpFormatter(&g, &r).to_string();
    let lines: Vec<&str> = text.split('\n').collect();
    assert!(lines[4].contains("0b11111111111111111111111111111111"));
    assert!(lines[4].contains("   -12 "));
    assert_eq!(lines[15], format!("length: {:<35}truelength: {:<35}", -4, i64::MAX));
}

#[test]
fn update_text_separates_nodes_by_empty_lines() {
    let g = globals();
    let a = pair(0x1, 0x2, 0x3);
    let b = pair(0x2, 0x3, 0x1);
    let ta = SexpFormatter(&g, &a).to_string();
    let tb = SexpFormatter(&g, &b).to_string();
    let u = Update { globals: g, sexprecs: vec![a, b] };
    assert_eq!(u.to_string(), format!("{}\n\n{}\n\n", ta, tb));
    let empty = Update { globals: g, sexprecs: vec![] };
    assert_eq!(empty.to_string(), "");
}

#[test]
fn payload_variant_names_the_shape() {
    let v = SexpPayload::Vecsxp(Vecsxp { length: 3, truelength: 0 });
    assert_eq!(v.payload_variant(), PayloadShape::Vector);
    let p = SexpPayload::Primsxp(Primsxp { offset: 7 });
    assert_eq!(p.payload_variant(), PayloadShape::Primitive);
    let l = SexpPayload::Listsxp(Listsxp { carval: Sexp(4), cdrval: Sexp(5), tagval: Sexp(6) });
    assert_eq!(l.payload_variant(), Sexptype::LANGSXP.payload_shape());
}
