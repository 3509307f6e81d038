//! The node model: addresses, kinds, header fields and payloads of captured nodes.
use vstd::prelude::*;

use crate::text::{
    align_left, align_right, binary_text, digits, hex_text, push_binary, push_digits, push_left,
    push_right, signed_decimal, signed_text,
};

verus! {

/// Identity of one captured heap object.
///
/// Always carried as a 64-bit value so that producer and consumer may run on
/// architectures of different pointer widths.
#[derive(Debug, Clone, Copy, PartialEq, Eq, Structural)]
pub struct Sexp(pub u64);

/// The well-known singleton objects of the host.
///
/// They terminate nothing during the walk; they are shown by name and laid out
/// apart from the main tree.
#[derive(Debug, Clone, Copy, PartialEq, Eq, Structural)]
pub struct Globals {
    pub unbound_value: Sexp,
    pub nil_value: Sexp,
    pub missing_arg: Sexp,
    pub global_env: Sexp,
    pub empty_env: Sexp,
    pub base_env: Sexp,
    pub base_namespace: Sexp,
    pub namespace_registry: Sexp,
    pub src_ref: Sexp,
    pub in_bc_interpreter: Sexp,
    pub current_expression: Sexp,
}

impl Globals {
    /// The special addresses, in the order in which they are looked up.
    pub open spec fn values(self) -> Seq<Sexp> {
        seq![
            self.unbound_value,
            self.nil_value,
            self.missing_arg,
            self.global_env,
            self.empty_env,
            self.base_env,
            self.base_namespace,
            self.namespace_registry,
            self.src_ref,
            self.in_bc_interpreter,
            self.current_expression,
        ]
    }

    /// `sexp` is one of the special addresses.
    pub open spec fn is_special(self, sexp: Sexp) -> bool {
        self.values().contains(sexp)
    }

    /// Whether `sexp` is one of the special addresses.
    pub fn is_global(&self, sexp: Sexp) -> (r: bool)
        ensures
            r == self.is_special(sexp),
    {
        let values = [
            self.unbound_value,
            self.nil_value,
            self.missing_arg,
            self.global_env,
            self.empty_env,
            self.base_env,
            self.base_namespace,
            self.namespace_registry,
            self.src_ref,
            self.in_bc_interpreter,
            self.current_expression,
        ];
        assert(values@ == self.values());
        let mut i: usize = 0;
        while i < 11
            invariant
                i <= 11,
                values@ == self.values(),
                forall|j: int| 0 <= j < i ==> values@[j] != sexp,
            decreases 11 - i,
        {
            if values[i] == sexp {
                return true;
            }
            i = i + 1;
        }
        false
    }
}

/// The closed set of node kinds, each with its stable numeric tag.
#[allow(non_camel_case_types)]
#[derive(Debug, Clone, Copy, PartialEq, Eq, Structural)]
pub enum Sexptype {
    NILSXP,
    SYMSXP,
    LISTSXP,
    CLOSXP,
    ENVSXP,
    PROMSXP,
    LANGSXP,
    SPECIALSXP,
    BUILTINSXP,
    CHARSXP,
    LGLSXP,
    INTSXP,
    REALSXP,
    CPLXSXP,
    STRSXP,
    DOTSXP,
    ANYSXP,
    VECSXP,
    EXPRSXP,
    BCODESXP,
    EXTPTRSXP,
    WEAKREFSXP,
    RAWSXP,
    S4SXP,
    NEWSXP,
    FREESXP,
}

/// A kind tag that names no member of [`Sexptype`].
#[derive(Debug, Clone, Copy, PartialEq, Eq, Structural)]
pub struct UnknownKind {
    pub tag: i32,
}

/// The numeric tag of each kind.
pub open spec fn tag_of(ty: Sexptype) -> i32 {
    match ty {
        Sexptype::NILSXP => 0,
        Sexptype::SYMSXP => 1,
        Sexptype::LISTSXP => 2,
        Sexptype::CLOSXP => 3,
        Sexptype::ENVSXP => 4,
        Sexptype::PROMSXP => 5,
        Sexptype::LANGSXP => 6,
        Sexptype::SPECIALSXP => 7,
        Sexptype::BUILTINSXP => 8,
        Sexptype::CHARSXP => 9,
        Sexptype::LGLSXP => 10,
        Sexptype::INTSXP => 13,
        Sexptype::REALSXP => 14,
        Sexptype::CPLXSXP => 15,
        Sexptype::STRSXP => 16,
        Sexptype::DOTSXP => 17,
        Sexptype::ANYSXP => 18,
        Sexptype::VECSXP => 19,
        Sexptype::EXPRSXP => 20,
        Sexptype::BCODESXP => 21,
        Sexptype::EXTPTRSXP => 22,
        Sexptype::WEAKREFSXP => 23,
        Sexptype::RAWSXP => 24,
        Sexptype::S4SXP => 25,
        Sexptype::NEWSXP => 30,
        Sexptype::FREESXP => 31,
    }
}

/// The kind that a numeric tag stands for; any other tag names no kind.
pub open spec fn kind_of_tag(tag: i32) -> Option<Sexptype> {
    if tag == 0 {
        Some(Sexptype::NILSXP)
    } else if tag == 1 {
        Some(Sexptype::SYMSXP)
    } else if tag == 2 {
        Some(Sexptype::LISTSXP)
    } else if tag == 3 {
        Some(Sexptype::CLOSXP)
    } else if tag == 4 {
        Some(Sexptype::ENVSXP)
    } else if tag == 5 {
        Some(Sexptype::PROMSXP)
    } else if tag == 6 {
        Some(Sexptype::LANGSXP)
    } else if tag == 7 {
        Some(Sexptype::SPECIALSXP)
    } else if tag == 8 {
        Some(Sexptype::BUILTINSXP)
    } else if tag == 9 {
        Some(Sexptype::CHARSXP)
    } else if tag == 10 {
        Some(Sexptype::LGLSXP)
    } else if tag == 13 {
        Some(Sexptype::INTSXP)
    } else if tag == 14 {
        Some(Sexptype::REALSXP)
    } else if tag == 15 {
        Some(Sexptype::CPLXSXP)
    } else if tag == 16 {
        Some(Sexptype::STRSXP)
    } else if tag == 17 {
        Some(Sexptype::DOTSXP)
    } else if tag == 18 {
        Some(Sexptype::ANYSXP)
    } else if tag == 19 {
        Some(Sexptype::VECSXP)
    } else if tag == 20 {
        Some(Sexptype::EXPRSXP)
    } else if tag == 21 {
        Some(Sexptype::BCODESXP)
    } else if tag == 22 {
        Some(Sexptype::EXTPTRSXP)
    } else if tag == 23 {
        Some(Sexptype::WEAKREFSXP)
    } else if tag == 24 {
        Some(Sexptype::RAWSXP)
    } else if tag == 25 {
        Some(Sexptype::S4SXP)
    } else if tag == 30 {
        Some(Sexptype::NEWSXP)
    } else if tag == 31 {
        Some(Sexptype::FREESXP)
    } else {
        None
    }
}

/// The name of each kind, as it is displayed.
pub open spec fn name_of(ty: Sexptype) -> Seq<char> {
    match ty {
        Sexptype::NILSXP => "NILSXP"@,
        Sexptype::SYMSXP => "SYMSXP"@,
        Sexptype::LISTSXP => "LISTSXP"@,
        Sexptype::CLOSXP => "CLOSXP"@,
        Sexptype::ENVSXP => "ENVSXP"@,
        Sexptype::PROMSXP => "PROMSXP"@,
        Sexptype::LANGSXP => "LANGSXP"@,
        Sexptype::SPECIALSXP => "SPECIALSXP"@,
        Sexptype::BUILTINSXP => "BUILTINSXP"@,
        Sexptype::CHARSXP => "CHARSXP"@,
        Sexptype::LGLSXP => "LGLSXP"@,
        Sexptype::INTSXP => "INTSXP"@,
        Sexptype::REALSXP => "REALSXP"@,
        Sexptype::CPLXSXP => "CPLXSXP"@,
        Sexptype::STRSXP => "STRSXP"@,
        Sexptype::DOTSXP => "DOTSXP"@,
        Sexptype::ANYSXP => "ANYSXP"@,
        Sexptype::VECSXP => "VECSXP"@,
        Sexptype::EXPRSXP => "EXPRSXP"@,
        Sexptype::BCODESXP => "BCODESXP"@,
        Sexptype::EXTPTRSXP => "EXTPTRSXP"@,
        Sexptype::WEAKREFSXP => "WEAKREFSXP"@,
        Sexptype::RAWSXP => "RAWSXP"@,
        Sexptype::S4SXP => "S4SXP"@,
        Sexptype::NEWSXP => "NEWSXP"@,
        Sexptype::FREESXP => "FREESXP"@,
    }
}

impl Sexptype {
    /// The numeric tag of this kind.
    pub fn tag(&self) -> (r: i32)
        ensures
            r == tag_of(*self),
    {
        match self {
            Sexptype::NILSXP => 0,
            Sexptype::SYMSXP => 1,
            Sexptype::LISTSXP => 2,
            Sexptype::CLOSXP => 3,
            Sexptype::ENVSXP => 4,
            Sexptype::PROMSXP => 5,
            Sexptype::LANGSXP => 6,
            Sexptype::SPECIALSXP => 7,
            Sexptype::BUILTINSXP => 8,
            Sexptype::CHARSXP => 9,
            Sexptype::LGLSXP => 10,
            Sexptype::INTSXP => 13,
            Sexptype::REALSXP => 14,
            Sexptype::CPLXSXP => 15,
            Sexptype::STRSXP => 16,
            Sexptype::DOTSXP => 17,
            Sexptype::ANYSXP => 18,
            Sexptype::VECSXP => 19,
            Sexptype::EXPRSXP => 20,
            Sexptype::BCODESXP => 21,
            Sexptype::EXTPTRSXP => 22,
            Sexptype::WEAKREFSXP => 23,
            Sexptype::RAWSXP => 24,
            Sexptype::S4SXP => 25,
            Sexptype::NEWSXP => 30,
            Sexptype::FREESXP => 31,
        }
    }

    /// The kind for a numeric tag, or `UnknownKind` for a tag outside the enumeration.
    pub fn try_from_tag(tag: i32) -> (r: Result<Sexptype, UnknownKind>)
        ensures
            r == (match kind_of_tag(tag) {
                Some(ty) => Ok::<Sexptype, UnknownKind>(ty),
                None => Err(UnknownKind { tag }),
            }),
    {
        match tag {
            0 => Ok(Sexptype::NILSXP),
            1 => Ok(Sexptype::SYMSXP),
            2 => Ok(Sexptype::LISTSXP),
            3 => Ok(Sexptype::CLOSXP),
            4 => Ok(Sexptype::ENVSXP),
            5 => Ok(Sexptype::PROMSXP),
            6 => Ok(Sexptype::LANGSXP),
            7 => Ok(Sexptype::SPECIALSXP),
            8 => Ok(Sexptype::BUILTINSXP),
            9 => Ok(Sexptype::CHARSXP),
            10 => Ok(Sexptype::LGLSXP),
            13 => Ok(Sexptype::INTSXP),
            14 => Ok(Sexptype::REALSXP),
            15 => Ok(Sexptype::CPLXSXP),
            16 => Ok(Sexptype::STRSXP),
            17 => Ok(Sexptype::DOTSXP),
            18 => Ok(Sexptype::ANYSXP),
            19 => Ok(Sexptype::VECSXP),
            20 => Ok(Sexptype::EXPRSXP),
            21 => Ok(Sexptype::BCODESXP),
            22 => Ok(Sexptype::EXTPTRSXP),
            23 => Ok(Sexptype::WEAKREFSXP),
            24 => Ok(Sexptype::RAWSXP),
            25 => Ok(Sexptype::S4SXP),
            30 => Ok(Sexptype::NEWSXP),
            31 => Ok(Sexptype::FREESXP),
            _ => Err(UnknownKind { tag }),
        }
    }

    /// The display name of this kind.
    pub fn name(&self) -> (r: &'static str)
        ensures
            r@ == name_of(*self),
    {
        match self {
            Sexptype::NILSXP => "NILSXP",
            Sexptype::SYMSXP => "SYMSXP",
            Sexptype::LISTSXP => "LISTSXP",
            Sexptype::CLOSXP => "CLOSXP",
            Sexptype::ENVSXP => "ENVSXP",
            Sexptype::PROMSXP => "PROMSXP",
            Sexptype::LANGSXP => "LANGSXP",
            Sexptype::SPECIALSXP => "SPECIALSXP",
            Sexptype::BUILTINSXP => "BUILTINSXP",
            Sexptype::CHARSXP => "CHARSXP",
            Sexptype::LGLSXP => "LGLSXP",
            Sexptype::INTSXP => "INTSXP",
            Sexptype::REALSXP => "REALSXP",
            Sexptype::CPLXSXP => "CPLXSXP",
            Sexptype::STRSXP => "STRSXP",
            Sexptype::DOTSXP => "DOTSXP",
            Sexptype::ANYSXP => "ANYSXP",
            Sexptype::VECSXP => "VECSXP",
            Sexptype::EXPRSXP => "EXPRSXP",
            Sexptype::BCODESXP => "BCODESXP",
            Sexptype::EXTPTRSXP => "EXTPTRSXP",
            Sexptype::WEAKREFSXP => "WEAKREFSXP",
            Sexptype::RAWSXP => "RAWSXP",
            Sexptype::S4SXP => "S4SXP",
            Sexptype::NEWSXP => "NEWSXP",
            Sexptype::FREESXP => "FREESXP",
        }
    }
}

/// A tag names a kind only when it is that kind's own tag.
pub proof fn lemma_tag_names_one_kind(tag: i32)
    ensures
        kind_of_tag(tag) matches Some(ty) ==> tag_of(ty) == tag,
{
}

/// Every kind is recovered from its own tag.
pub proof fn lemma_tag_round_trip(ty: Sexptype)
    ensures
        kind_of_tag(tag_of(ty)) == Some(ty),
{
}

/// The decoded fields of a node's packed header word.
#[derive(Debug, Clone, Copy, PartialEq, Eq, Structural)]
pub struct Sxpinfo {
    pub ty: i32,
    pub scalar: i32,
    pub obj: i32,
    pub alt: i32,
    pub gp: i32,
    pub mark: i32,
    pub debug: i32,
    pub trace: i32,
    pub spare: i32,
    pub gcgen: u32,
    pub gccls: u32,
    pub named: i32,
    pub extra: u32,
}

/// Payload of vector-like kinds.
#[derive(Debug, Clone, Copy, PartialEq, Eq, Structural)]
pub struct Vecsxp {
    pub length: i64,
    pub truelength: i64,
}

/// Payload of builtin and special functions.
#[derive(Debug, Clone, Copy, PartialEq, Eq, Structural)]
pub struct Primsxp {
    pub offset: i32,
}

/// Payload of symbols.
#[derive(Debug, Clone, Copy, PartialEq, Eq, Structural)]
pub struct Symsxp {
    pub pname: Sexp,
    pub value: Sexp,
    pub internal: Sexp,
}

/// Payload of pairs, calls and expression lists.
#[derive(Debug, Clone, Copy, PartialEq, Eq, Structural)]
pub struct Listsxp {
    pub carval: Sexp,
    pub cdrval: Sexp,
    pub tagval: Sexp,
}

/// Payload of environments.
#[derive(Debug, Clone, Copy, PartialEq, Eq, Structural)]
pub struct Envsxp {
    pub frame: Sexp,
    pub enclos: Sexp,
    pub hashtab: Sexp,
}

/// Payload of closures.
#[derive(Debug, Clone, Copy, PartialEq, Eq, Structural)]
pub struct Closxp {
    pub formals: Sexp,
    pub body: Sexp,
    pub env: Sexp,
}

/// Payload of promises.
#[derive(Debug, Clone, Copy, PartialEq, Eq, Structural)]
pub struct Promsxp {
    pub value: Sexp,
    pub expr: Sexp,
    pub env: Sexp,
}

/// The variant data of a node; its shape follows from the node's kind.
#[derive(Debug, Clone, Copy, PartialEq, Eq, Structural)]
pub enum SexpPayload {
    Vecsxp(Vecsxp),
    Primsxp(Primsxp),
    Symsxp(Symsxp),
    Listsxp(Listsxp),
    Envsxp(Envsxp),
    Closxp(Closxp),
    Promsxp(Promsxp),
}

/// Which payload variant a kind carries.
#[derive(Debug, Clone, Copy, PartialEq, Eq, Structural)]
pub enum PayloadShape {
    Vector,
    Primitive,
    Symbol,
    List,
    Environment,
    Closure,
    Promise,
}

/// The payload shape of each kind. Kinds without a payload of their own are
/// read as lists, as the host lays them out.
pub open spec fn shape_of(ty: Sexptype) -> PayloadShape {
    match ty {
        Sexptype::SYMSXP => PayloadShape::Symbol,
        Sexptype::LISTSXP | Sexptype::LANGSXP | Sexptype::EXPRSXP => PayloadShape::List,
        Sexptype::CLOSXP => PayloadShape::Closure,
        Sexptype::ENVSXP => PayloadShape::Environment,
        Sexptype::PROMSXP => PayloadShape::Promise,
        Sexptype::SPECIALSXP | Sexptype::BUILTINSXP => PayloadShape::Primitive,
        Sexptype::CHARSXP | Sexptype::LGLSXP | Sexptype::INTSXP | Sexptype::REALSXP
        | Sexptype::CPLXSXP | Sexptype::STRSXP | Sexptype::VECSXP | Sexptype::RAWSXP => {
            PayloadShape::Vector
        },
        _ => PayloadShape::List,
    }
}

impl Sexptype {
    /// The payload shape that the inspector must read for this kind.
    pub fn payload_shape(&self) -> (r: PayloadShape)
        ensures
            r == shape_of(*self),
    {
        match self {
            Sexptype::SYMSXP => PayloadShape::Symbol,
            Sexptype::LISTSXP | Sexptype::LANGSXP | Sexptype::EXPRSXP => PayloadShape::List,
            Sexptype::CLOSXP => PayloadShape::Closure,
            Sexptype::ENVSXP => PayloadShape::Environment,
            Sexptype::PROMSXP => PayloadShape::Promise,
            Sexptype::SPECIALSXP | Sexptype::BUILTINSXP => PayloadShape::Primitive,
            Sexptype::CHARSXP | Sexptype::LGLSXP | Sexptype::INTSXP | Sexptype::REALSXP
            | Sexptype::CPLXSXP | Sexptype::STRSXP | Sexptype::VECSXP | Sexptype::RAWSXP => {
                PayloadShape::Vector
            },
            _ => PayloadShape::List,
        }
    }
}

impl SexpPayload {
    /// The variant of this payload.
    pub open spec fn shape(self) -> PayloadShape {
        match self {
            SexpPayload::Vecsxp(_) => PayloadShape::Vector,
            SexpPayload::Primsxp(_) => PayloadShape::Primitive,
            SexpPayload::Symsxp(_) => PayloadShape::Symbol,
            SexpPayload::Listsxp(_) => PayloadShape::List,
            SexpPayload::Envsxp(_) => PayloadShape::Environment,
            SexpPayload::Closxp(_) => PayloadShape::Closure,
            SexpPayload::Promsxp(_) => PayloadShape::Promise,
        }
    }

    /// Which variant this payload is.
    pub fn payload_variant(&self) -> (r: PayloadShape)
        ensures
            r == self.shape(),
    {
        match self {
            SexpPayload::Vecsxp(_) => PayloadShape::Vector,
            SexpPayload::Primsxp(_) => PayloadShape::Primitive,
            SexpPayload::Symsxp(_) => PayloadShape::Symbol,
            SexpPayload::Listsxp(_) => PayloadShape::List,
            SexpPayload::Envsxp(_) => PayloadShape::Environment,
            SexpPayload::Closxp(_) => PayloadShape::Closure,
            SexpPayload::Promsxp(_) => PayloadShape::Promise,
        }
    }

    /// The addresses this payload links to, in walking order.
    pub open spec fn links(self) -> Seq<Sexp> {
        match self {
            SexpPayload::Vecsxp(_) | SexpPayload::Primsxp(_) => seq![],
            SexpPayload::Symsxp(p) => seq![p.pname, p.value, p.internal],
            SexpPayload::Listsxp(p) => seq![p.carval, p.cdrval, p.tagval],
            SexpPayload::Envsxp(p) => seq![p.frame, p.enclos, p.hashtab],
            SexpPayload::Closxp(p) => seq![p.formals, p.body, p.env],
            SexpPayload::Promsxp(p) => seq![p.value, p.expr, p.env],
        }
    }

    /// The field name of each link, in the same order as [`SexpPayload::links`].
    pub open spec fn link_names(self) -> Seq<Seq<char>> {
        match self {
            SexpPayload::Vecsxp(_) | SexpPayload::Primsxp(_) => seq![],
            SexpPayload::Symsxp(_) => seq!["pname"@, "value"@, "internal"@],
            SexpPayload::Listsxp(_) => seq!["carval"@, "cdrval"@, "tagval"@],
            SexpPayload::Envsxp(_) => seq!["frame"@, "enclos"@, "hashtab"@],
            SexpPayload::Closxp(_) => seq!["formals"@, "body"@, "env"@],
            SexpPayload::Promsxp(_) => seq!["value"@, "expr"@, "env"@],
        }
    }

    /// The named links of this payload.
    pub fn pointers(&self) -> (r: Vec<(&'static str, Sexp)>)
        ensures
            r@.len() == self.links().len(),
            forall|i: int|
                0 <= i < r@.len() ==> r@[i].0@ == self.link_names()[i] && r@[i].1
                    == self.links()[i],
    {
        match self {
            SexpPayload::Vecsxp(_) => vec![],
            SexpPayload::Primsxp(_) => vec![],
            SexpPayload::Symsxp(p) => vec![
                ("pname", p.pname),
                ("value", p.value),
                ("internal", p.internal),
            ],
            SexpPayload::Listsxp(p) => vec![
                ("carval", p.carval),
                ("cdrval", p.cdrval),
                ("tagval", p.tagval),
            ],
            SexpPayload::Envsxp(p) => vec![
                ("frame", p.frame),
                ("enclos", p.enclos),
                ("hashtab", p.hashtab),
            ],
            SexpPayload::Closxp(p) => vec![
                ("formals", p.formals),
                ("body", p.body),
                ("env", p.env),
            ],
            SexpPayload::Promsxp(p) => vec![
                ("value", p.value),
                ("expr", p.expr),
                ("env", p.env),
            ],
        }
    }
}

/// One captured node.
#[derive(Debug, Clone, PartialEq, Eq)]
pub struct Sexprec {
    pub address: Sexp,
    pub ty: Sexptype,
    pub ty_name: String,
    pub sxpinfo: Sxpinfo,
    pub sxpinfo_bits: u64,
    pub attrib: Sexp,
    pub gengc_next_node: Sexp,
    pub gengc_prev_node: Sexp,
    pub payload: SexpPayload,
}

impl Sexprec {
    /// The addresses the walker descends into from this node: the attributes
    /// first, then the payload links.
    pub open spec fn children(self) -> Seq<Sexp> {
        seq![self.attrib] + self.payload.links()
    }
}

/// One snapshot: the special-value table and the nodes in walking order.
#[derive(Debug, Clone, PartialEq, Eq)]
pub struct Update {
    pub globals: Globals,
    pub sexprecs: Vec<Sexprec>,
}

impl Globals {
    /// The name annotation of a special address, empty for any other.
    pub open spec fn special_name(self, sexp: Sexp) -> Seq<char> {
        if sexp == self.unbound_value {
            " (R_UnboundValue)"@
        } else if sexp == self.nil_value {
            " (R_NilValue)"@
        } else if sexp == self.missing_arg {
            " (R_MissingArg)"@
        } else if sexp == self.global_env {
            " (R_GlobalEnv)"@
        } else if sexp == self.empty_env {
            " (R_EmptyEnv)"@
        } else if sexp == self.base_env {
            " (R_BaseEnv)"@
        } else if sexp == self.base_namespace {
            " (R_BaseNamespace)"@
        } else if sexp == self.namespace_registry {
            " (R_NamespaceRegistry)"@
        } else if sexp == self.src_ref {
            " (R_Srcref)"@
        } else if sexp == self.in_bc_interpreter {
            " (R_InBCInterpreter)"@
        } else if sexp == self.current_expression {
            " (R_CurrentExpression)"@
        } else {
            Seq::empty()
        }
    }

    /// Display text of an address: `@`, lower-case hex, then the name if special.
    pub open spec fn ptr_text(self, sexp: Sexp) -> Seq<char> {
        "@"@ + digits(sexp.0 as nat, 16) + self.special_name(sexp)
    }

    /// The display text of an address.
    #[must_use]
    pub fn fmt_ptr(&self, sexp: Sexp) -> (r: String)
        ensures
            r@ == self.ptr_text(sexp),
    {
        let mut s = String::from_str("@");
        let hex = hex_text(sexp.0);
        s.append(hex.as_str());
        if sexp == self.unbound_value {
            s.append(" (R_UnboundValue)");
        } else if sexp == self.nil_value {
            s.append(" (R_NilValue)");
        } else if sexp == self.missing_arg {
            s.append(" (R_MissingArg)");
        } else if sexp == self.global_env {
            s.append(" (R_GlobalEnv)");
        } else if sexp == self.empty_env {
            s.append(" (R_EmptyEnv)");
        } else if sexp == self.base_env {
            s.append(" (R_BaseEnv)");
        } else if sexp == self.base_namespace {
            s.append(" (R_BaseNamespace)");
        } else if sexp == self.namespace_registry {
            s.append(" (R_NamespaceRegistry)");
        } else if sexp == self.src_ref {
            s.append(" (R_Srcref)");
        } else if sexp == self.in_bc_interpreter {
            s.append(" (R_InBCInterpreter)");
        } else if sexp == self.current_expression {
            s.append(" (R_CurrentExpression)");
        }
        s
    }
}

/// An address is annotated with a name exactly when it is special.
pub proof fn lemma_named_iff_special(g: Globals, sexp: Sexp)
    ensures
        g.special_name(sexp).len() > 0 <==> g.is_special(sexp),
{
    reveal_strlit(" (R_UnboundValue)");
    reveal_strlit(" (R_NilValue)");
    reveal_strlit(" (R_MissingArg)");
    reveal_strlit(" (R_GlobalEnv)");
    reveal_strlit(" (R_EmptyEnv)");
    reveal_strlit(" (R_BaseEnv)");
    reveal_strlit(" (R_BaseNamespace)");
    reveal_strlit(" (R_NamespaceRegistry)");
    reveal_strlit(" (R_Srcref)");
    reveal_strlit(" (R_InBCInterpreter)");
    reveal_strlit(" (R_CurrentExpression)");
    if g.is_special(sexp) {
        let i = choose|i: int| 0 <= i < g.values().len() && g.values()[i] == sexp;
        assert(g.values()[i] == sexp);
    } else {
        assert(g.values()[0] != sexp);
        assert(g.values()[1] != sexp);
        assert(g.values()[2] != sexp);
        assert(g.values()[3] != sexp);
        assert(g.values()[4] != sexp);
        assert(g.values()[5] != sexp);
        assert(g.values()[6] != sexp);
        assert(g.values()[7] != sexp);
        assert(g.values()[8] != sexp);
        assert(g.values()[9] != sexp);
        assert(g.values()[10] != sexp);
    }
}

/// Renders one node as text, resolving special addresses to their names.
#[derive(Debug)]
pub struct SexpFormatter<'a>(pub &'a Globals, pub &'a Sexprec);

/// First line: address, kind name and kind.
pub open spec fn header_line(g: Globals, r: Sexprec) -> Seq<char> {
    "address: "@ + g.ptr_text(r.address) + ", type: "@ + r.ty_name@ + "/"@ + name_of(r.ty) + "\n"@
}

/// The raw header word in binary.
pub open spec fn bits_line(r: Sexprec) -> Seq<char> {
    "sxpinfo: "@ + binary_text(r.sxpinfo_bits as nat, 64) + "\n"@
}

/// Column titles and widths of the decoded header fields.
pub open spec fn fields_legend() -> Seq<char> {
    " fields: type scalar obj alt           gp         mark debug trace spare gcgen gccls named extra\n   bits:  [5]    [1] [1] [1]          [16]         [1]   [1]   [1]   [1]   [1]   [3]  [16]  [16]\n"@
}

/// A signed field, right-aligned in `width` columns.
pub open spec fn column(v: int, width: nat) -> Seq<char> {
    align_right(signed_text(v), width, ' ')
}

/// The decoded header fields, one per column.
pub open spec fn fields_line(i: Sxpinfo) -> Seq<char> {
    "         "@ + column(i.ty as int, 4) + " "@ + column(i.scalar as int, 6) + " "@ + column(
        i.obj as int,
        3,
    ) + " "@ + column(i.alt as int, 3) + "  "@ + binary_text((i.gp as u32) as nat, 16) + "  "@
        + column(i.mark as int, 4) + " "@ + column(i.debug as int, 5) + " "@ + column(
        i.trace as int,
        5,
    ) + " "@ + column(i.spare as int, 5) + " "@ + column(i.gcgen as int, 5) + " "@ + column(
        i.gccls as int,
        5,
    ) + " "@ + column(i.named as int, 5) + " "@ + column(i.extra as int, 5) + "\n"@
}

/// The meaning of each general-purpose bit.
pub open spec fn gp_legend() -> Seq<char> {
    "         GP bit meaning: |< MISSING [0:3] >|                                   ASSIGNMENT_PENDING\n                         DDVAL / HASHASH / READY_TO_FINALIZE                   |    SPECIAL_SYMBOL / NO_SPECIAL_SYMBOLS\n                         |    BYTES / FINALIZE_ON_EXIT                         |    |    BASE_SYM_CACHED\n                         |    |    LATIN1         NOJIT / GROWABLE / CACHED    |    |    |    BINDING_LOCK / FRAME_LOCK\n                         |    |    |    UTF8 S4   |    ASCII                   |    |    |    |    ACTIVE_BINDING / GLOBAL_FRAME\n                  index: 0    1    2    3    4    5    6    7    8    9   10   11   12   13   14   15\n"@
}

/// Bit `index` of the general-purpose field.
pub open spec fn gp_bit(gp: i32, index: nat) -> nat {
    (((gp as u32) >> (index as u32)) & 1u32) as nat
}

/// Bits `0 .. count` of the general-purpose field, five columns each.
pub open spec fn gp_bits(gp: i32, count: nat) -> Seq<char>
    decreases count,
{
    if count == 0 {
        Seq::empty()
    } else {
        gp_bits(gp, (count - 1) as nat) + align_left(digits(gp_bit(gp, (count - 1) as nat), 10), 5)
    }
}

/// The value of each of the sixteen general-purpose bits.
pub open spec fn gp_line(i: Sxpinfo) -> Seq<char> {
    "                  value: "@ + gp_bits(i.gp, 16) + "\n"@
}

/// The attribute and bookkeeping links.
pub open spec fn links_lines(g: Globals, r: Sexprec) -> Seq<char> {
    "attrib "@ + g.ptr_text(r.attrib) + "\n"@ + "gengc_next_node "@ + g.ptr_text(r.gengc_next_node)
        + "\n"@ + "gengc_prev_node "@ + g.ptr_text(r.gengc_prev_node) + "\n"@
}

/// An address field: its label, then the address text left-aligned in 35 columns.
pub open spec fn ptr_field(g: Globals, label: Seq<char>, sexp: Sexp) -> Seq<char> {
    label + align_left(g.ptr_text(sexp), 35)
}

/// An integer field: its label, then the number left-aligned in 35 columns.
pub open spec fn int_field(label: Seq<char>, v: int) -> Seq<char> {
    label + align_left(signed_text(v), 35)
}

/// The payload fields, on one line without a line break.
pub open spec fn payload_text(g: Globals, p: SexpPayload) -> Seq<char> {
    match p {
        SexpPayload::Vecsxp(v) => int_field("length: "@, v.length as int) + int_field(
            "truelength: "@,
            v.truelength as int,
        ),
        SexpPayload::Primsxp(v) => int_field("offset: "@, v.offset as int),
        SexpPayload::Symsxp(v) => ptr_field(g, "pname: "@, v.pname) + ptr_field(
            g,
            "value: "@,
            v.value,
        ) + ptr_field(g, "internal: "@, v.internal),
        SexpPayload::Listsxp(v) => ptr_field(g, "carval: "@, v.carval) + ptr_field(
            g,
            "cdrval: "@,
            v.cdrval,
        ) + ptr_field(g, "tagval: "@, v.tagval),
        SexpPayload::Envsxp(v) => ptr_field(g, "frame: "@, v.frame) + ptr_field(
            g,
            "enclos: "@,
            v.enclos,
        ) + ptr_field(g, "hashtab: "@, v.hashtab),
        SexpPayload::Closxp(v) => ptr_field(g, "formals: "@, v.formals) + ptr_field(
            g,
            "body: "@,
            v.body,
        ) + ptr_field(g, "env: "@, v.env),
        SexpPayload::Promsxp(v) => ptr_field(g, "value: "@, v.value) + ptr_field(
            g,
            "expr: "@,
            v.expr,
        ) + ptr_field(g, "env: "@, v.env),
    }
}

/// The full text of one node.
pub open spec fn node_text(g: Globals, r: Sexprec) -> Seq<char> {
    header_line(g, r) + bits_line(r) + fields_legend() + fields_line(r.sxpinfo) + gp_legend()
        + gp_line(r.sxpinfo) + links_lines(g, r) + payload_text(g, r.payload)
}

/// The text of a whole snapshot: each node's text followed by an empty line.
pub open spec fn update_text(g: Globals, recs: Seq<Sexprec>) -> Seq<char>
    decreases recs.len(),
{
    if recs.len() == 0 {
        Seq::empty()
    } else {
        update_text(g, recs.drop_last()) + node_text(g, recs.last()) + "\n"@ + "\n"@
    }
}

fn push_column(s: &mut String, v: i64, width: usize)
    ensures
        final(s)@ == old(s)@ + column(v as int, width as nat),
{
    let t = signed_decimal(v);
    push_right(s, t.as_str(), width);
}

fn push_ptr_field(s: &mut String, g: &Globals, label: &str, sexp: Sexp)
    ensures
        final(s)@ == old(s)@ + ptr_field(*g, label@, sexp),
{
    s.append(label);
    let t = g.fmt_ptr(sexp);
    push_left(s, t.as_str(), 35);
    assert(s@ =~= old(s)@ + ptr_field(*g, label@, sexp));
}

fn push_int_field(s: &mut String, label: &str, v: i64)
    ensures
        final(s)@ == old(s)@ + int_field(label@, v as int),
{
    s.append(label);
    let t = signed_decimal(v);
    push_left(s, t.as_str(), 35);
    assert(s@ =~= old(s)@ + int_field(label@, v as int));
}

fn header_text(g: &Globals, r: &Sexprec) -> (t: String)
    ensures
        t@ == header_line(*g, *r),
{
    let mut t = String::from_str("address: ");
    let p = g.fmt_ptr(r.address);
    t.append(p.as_str());
    t.append(", type: ");
    t.append(r.ty_name.as_str());
    t.append("/");
    t.append(r.ty.name());
    t.append("\n");
    t
}

fn bits_text(r: &Sexprec) -> (t: String)
    ensures
        t@ == bits_line(*r),
{
    let mut t = String::from_str("sxpinfo: ");
    push_binary(&mut t, r.sxpinfo_bits, 64);
    t.append("\n");
    t
}

fn fields_text(i: &Sxpinfo) -> (t: String)
    ensures
        t@ == fields_line(*i),
{
    let mut t = String::from_str("         ");
    push_column(&mut t, i.ty as i64, 4);
    t.append(" ");
    push_column(&mut t, i.scalar as i64, 6);
    t.append(" ");
    push_column(&mut t, i.obj as i64, 3);
    t.append(" ");
    push_column(&mut t, i.alt as i64, 3);
    t.append("  ");
    push_binary(&mut t, (i.gp as u32) as u64, 16);
    t.append("  ");
    push_column(&mut t, i.mark as i64, 4);
    t.append(" ");
    push_column(&mut t, i.debug as i64, 5);
    t.append(" ");
    push_column(&mut t, i.trace as i64, 5);
    t.append(" ");
    push_column(&mut t, i.spare as i64, 5);
    t.append(" ");
    push_column(&mut t, i.gcgen as i64, 5);
    t.append(" ");
    push_column(&mut t, i.gccls as i64, 5);
    t.append(" ");
    push_column(&mut t, i.named as i64, 5);
    t.append(" ");
    push_column(&mut t, i.extra as i64, 5);
    t.append("\n");
    t
}

fn gp_text(i: &Sxpinfo) -> (t: String)
    ensures
        t@ == gp_line(*i),
{
    let mut t = String::from_str("                  value: ");
    let ghost start = t@;
    let mut index: u32 = 0;
    while index < 16
        invariant
            index <= 16,
            t@ == start + gp_bits(i.gp, index as nat),
        decreases 16 - index,
    {
        let bit: u32 = ((i.gp as u32) >> index) & 1u32;
        let mut d = String::new();
        push_digits(&mut d, bit as u64, 10);
        push_left(&mut t, d.as_str(), 5);
        assert(t@ =~= start + gp_bits(i.gp, (index + 1) as nat));
        index = index + 1;
    }
    t.append("\n");
    t
}

fn links_text(g: &Globals, r: &Sexprec) -> (t: String)
    ensures
        t@ == links_lines(*g, *r),
{
    let mut t = String::from_str("attrib ");
    let p = g.fmt_ptr(r.attrib);
    t.append(p.as_str());
    t.append("\n");
    t.append("gengc_next_node ");
    let p = g.fmt_ptr(r.gengc_next_node);
    t.append(p.as_str());
    t.append("\n");
    t.append("gengc_prev_node ");
    let p = g.fmt_ptr(r.gengc_prev_node);
    t.append(p.as_str());
    t.append("\n");
    t
}

fn payload_fields(g: &Globals, p: &SexpPayload) -> (t: String)
    ensures
        t@ == payload_text(*g, *p),
{
    let mut t = String::new();
    match p {
        SexpPayload::Vecsxp(v) => {
            push_int_field(&mut t, "length: ", v.length);
            push_int_field(&mut t, "truelength: ", v.truelength);
        },
        SexpPayload::Primsxp(v) => {
            push_int_field(&mut t, "offset: ", v.offset as i64);
        },
        SexpPayload::Symsxp(v) => {
            push_ptr_field(&mut t, g, "pname: ", v.pname);
            push_ptr_field(&mut t, g, "value: ", v.value);
            push_ptr_field(&mut t, g, "internal: ", v.internal);
        },
        SexpPayload::Listsxp(v) => {
            push_ptr_field(&mut t, g, "carval: ", v.carval);
            push_ptr_field(&mut t, g, "cdrval: ", v.cdrval);
            push_ptr_field(&mut t, g, "tagval: ", v.tagval);
        },
        SexpPayload::Envsxp(v) => {
            push_ptr_field(&mut t, g, "frame: ", v.frame);
            push_ptr_field(&mut t, g, "enclos: ", v.enclos);
            push_ptr_field(&mut t, g, "hashtab: ", v.hashtab);
        },
        SexpPayload::Closxp(v) => {
            push_ptr_field(&mut t, g, "formals: ", v.formals);
            push_ptr_field(&mut t, g, "body: ", v.body);
            push_ptr_field(&mut t, g, "env: ", v.env);
        },
        SexpPayload::Promsxp(v) => {
            push_ptr_field(&mut t, g, "value: ", v.value);
            push_ptr_field(&mut t, g, "expr: ", v.expr);
            push_ptr_field(&mut t, g, "env: ", v.env);
        },
    }
    assert(t@ =~= payload_text(*g, *p));
    t
}

impl<'a> SexpFormatter<'a> {
    /// The full text of the node.
    pub fn to_string(&self) -> (r: String)
        ensures
            r@ == node_text(*self.0, *self.1),
    {
        let g = self.0;
        let r = self.1;
        let mut s = header_text(g, r);
        let t = bits_text(r);
        s.append(t.as_str());
        s.append(" fields: type scalar obj alt           gp         mark debug trace spare gcgen gccls named extra\n   bits:  [5]    [1] [1] [1]          [16]         [1]   [1]   [1]   [1]   [1]   [3]  [16]  [16]\n");
        let t = fields_text(&r.sxpinfo);
        s.append(t.as_str());
        s.append("         GP bit meaning: |< MISSING [0:3] >|                                   ASSIGNMENT_PENDING\n                         DDVAL / HASHASH / READY_TO_FINALIZE                   |    SPECIAL_SYMBOL / NO_SPECIAL_SYMBOLS\n                         |    BYTES / FINALIZE_ON_EXIT                         |    |    BASE_SYM_CACHED\n                         |    |    LATIN1         NOJIT / GROWABLE / CACHED    |    |    |    BINDING_LOCK / FRAME_LOCK\n                         |    |    |    UTF8 S4   |    ASCII                   |    |    |    |    ACTIVE_BINDING / GLOBAL_FRAME\n                  index: 0    1    2    3    4    5    6    7    8    9   10   11   12   13   14   15\n");
        let t = gp_text(&r.sxpinfo);
        s.append(t.as_str());
        let t = links_text(g, r);
        s.append(t.as_str());
        let t = payload_fields(g, &r.payload);
        s.append(t.as_str());
        s
    }
}

impl Update {
    /// The text of every node, each followed by an empty line.
    pub fn to_string(&self) -> (r: String)
        ensures
            r@ == update_text(self.globals, self.sexprecs@),
    {
        let mut s = String::new();
        let mut i: usize = 0;
        while i < self.sexprecs.len()
            invariant
                i <= self.sexprecs@.len(),
                s@ == update_text(self.globals, self.sexprecs@.subrange(0, i as int)),
            decreases self.sexprecs@.len() - i,
        {
            let f = SexpFormatter(&self.globals, &self.sexprecs[i]);
            let t = f.to_string();
            s.append(t.as_str());
            s.append("\n");
            s.append("\n");
            assert(self.sexprecs@.subrange(0, i + 1).drop_last() =~= self.sexprecs@.subrange(
                0,
                i as int,
            ));
            i = i + 1;
        }
        assert(self.sexprecs@.subrange(0, i as int) =~= self.sexprecs@);
        s
    }
}

} // verus!
