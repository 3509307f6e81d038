//! The graph walker: a depth-first, pre-order traversal that records every
//! reachable node exactly once.
//!
//! Reading a node out of the host's memory is the host inspector's job. The
//! walker decides which address to inspect next ([`Walker::next`]) and takes
//! the inspected record back ([`Walker::record`]); a driver alternates the two
//! until `next` returns `None`. Addresses wait on an explicit stack, so deep
//! structures such as long pair lists need no recursion.
use std::collections::HashSet;

use vstd::prelude::*;

use crate::data::{kind_of_tag, shape_of, Sexp, Sexprec, Sexptype, UnknownKind};

verus! {

broadcast use vstd::std_specs::hash::group_hash_axioms;

/// The state of a walk, as the contracts see it.
pub struct WalkerView {
    /// Where the walk started.
    pub root: Sexp,
    /// Addresses still to look at; the last one is looked at first.
    pub pending: Seq<Sexp>,
    /// Every address handed out for inspection so far.
    pub visited: Set<u64>,
    /// The address handed out last, until its record comes back.
    pub current: Option<Sexp>,
    /// The recorded nodes, in the order they were first reached.
    pub records: Seq<Sexprec>,
    /// The unknown kind that aborted the walk, if one did.
    pub failed: Option<UnknownKind>,
}

/// The next address to inspect: the top of `pending` after dropping the
/// addresses already visited, and what remains of `pending` after it.
pub open spec fn pop_unvisited(pending: Seq<Sexp>, visited: Set<u64>) -> (Option<Sexp>, Seq<Sexp>)
    decreases pending.len(),
{
    if pending.len() == 0 {
        (None, pending)
    } else if visited.contains(pending.last().0) {
        pop_unvisited(pending.drop_last(), visited)
    } else {
        (Some(pending.last()), pending.drop_last())
    }
}

/// `a` is the address of `root` or of a link of one of `records`.
pub open spec fn linked_from(root: Sexp, records: Seq<Sexprec>, a: u64) -> bool {
    a == root.0 || exists|i: int, k: int|
        0 <= i < records.len() && 0 <= k < records[i].children().len()
            && #[trigger] records[i].children()[k].0 == a
}

impl WalkerView {
    /// Some record carries address `a`.
    pub open spec fn recorded(self, a: Sexp) -> bool {
        exists|i: int| 0 <= i < self.records.len() && self.records[i].address == a
    }

    /// `a` is the root or a link of some recorded node.
    pub open spec fn in_graph(self, a: u64) -> bool {
        linked_from(self.root, self.records, a)
    }

    /// `a` is waiting in `pending`.
    pub open spec fn is_pending(self, a: Sexp) -> bool {
        exists|j: int| 0 <= j < self.pending.len() && self.pending[j] == a
    }

    /// `a` is visited or still waiting to be looked at.
    pub open spec fn reached(self, a: Sexp) -> bool {
        self.visited.contains(a.0) || self.is_pending(a)
    }

    /// Nothing reachable is lost: every visited address is recorded or is the
    /// one being inspected, and the root and every link of a record are visited
    /// or still pending.
    pub open spec fn nothing_lost(self) -> bool {
        &&& forall|a: u64|
            self.visited.contains(a) ==> self.recorded(Sexp(a)) || self.current == Some(Sexp(a))
        &&& self.reached(self.root)
        &&& forall|i: int, k: int|
            0 <= i < self.records.len() && 0 <= k < self.records[i].children().len() ==> self.reached(
                #[trigger] self.records[i].children()[k],
            )
    }

    /// The walk ran to its end: nothing is pending or being inspected.
    pub open spec fn done(self) -> bool {
        self.pending.len() == 0 && self.current is None && self.failed is None
    }

    /// What holds in every state of a walk.
    pub open spec fn consistent(self) -> bool {
        &&& forall|i: int, j: int|
            0 <= i < j < self.records.len() ==> self.records[i].address != self.records[j].address
        &&& forall|i: int|
            0 <= i < self.records.len() ==> self.visited.contains(self.records[i].address.0)
        &&& self.current matches Some(c) ==> self.visited.contains(c.0) && !self.recorded(c)
        &&& self.records.len() > 0 ==> self.records[0].address == self.root
        &&& self.records.len() == 0 ==> (forall|i: int|
            0 <= i < self.pending.len() ==> self.pending[i] == self.root)
        &&& self.records.len() == 0 ==> (self.current matches Some(c) ==> c == self.root)
        &&& self.visited.finite()
        &&& forall|a: u64| self.visited.contains(a) ==> self.in_graph(a)
        &&& forall|i: int| 0 <= i < self.pending.len() ==> self.in_graph(self.pending[i].0)
        &&& self.failed is Some ==> self.pending.len() == 0 && self.current is None
        &&& self.failed is None ==> self.nothing_lost()
    }
}

/// A walk only visits the root and addresses that recorded nodes link to. So
/// on a graph whose addresses lie in a finite set, the walk hands out at most
/// as many addresses as the set holds, and then ends.
pub proof fn lemma_visits_bounded(v: WalkerView, graph: Set<u64>)
    requires
        v.consistent(),
        graph.finite(),
        graph.contains(v.root.0),
        forall|i: int, k: int|
            0 <= i < v.records.len() && 0 <= k < v.records[i].children().len() ==> graph.contains(
                #[trigger] v.records[i].children()[k].0,
            ),
    ensures
        v.visited.subset_of(graph),
        v.visited.len() <= graph.len(),
{
    assert forall|a: u64| v.visited.contains(a) implies graph.contains(a) by {
        assert(v.in_graph(a));
    }
    vstd::set_lib::lemma_len_subset(v.visited, graph);
}

/// `pop_unvisited` hands out an address from `pending` that is not visited,
/// and leaves a prefix of `pending`.
pub proof fn lemma_pop_unvisited(pending: Seq<Sexp>, visited: Set<u64>)
    ensures
        ({
            let (r, rest) = pop_unvisited(pending, visited);
            &&& rest.len() <= pending.len()
            &&& forall|i: int| 0 <= i < rest.len() ==> rest[i] == pending[i]
            &&& r matches Some(s) ==> !visited.contains(s.0) && exists|i: int|
                0 <= i < pending.len() && pending[i] == s
            &&& forall|j: int|
                rest.len() <= j < pending.len() ==> visited.contains(pending[j].0) || r == Some(
                    pending[j],
                )
        }),
    decreases pending.len(),
{
    if pending.len() > 0 {
        if visited.contains(pending.last().0) {
            lemma_pop_unvisited(pending.drop_last(), visited);
            let (r, rest) = pop_unvisited(pending.drop_last(), visited);
            if let Some(s) = r {
                let i = choose|i: int| 0 <= i < pending.drop_last().len() && pending.drop_last()[i] == s;
                assert(pending[i] == s);
            }
            assert forall|j: int| rest.len() <= j < pending.len() implies visited.contains(
                pending[j].0,
            ) || r == Some(pending[j]) by {
                if j < pending.len() - 1 {
                    assert(pending.drop_last()[j] == pending[j]);
                }
            }
        } else {
            assert(pending[pending.len() - 1] == pending.last());
        }
    }
}

/// Handing out the next address loses nothing reachable.
proof fn lemma_next_loses_nothing(o: WalkerView, v: WalkerView)
    requires
        o.consistent(),
        o.current is None,
        o.failed is None,
        (v.current, v.pending) == pop_unvisited(o.pending, o.visited),
        v.visited == (match v.current {
            Some(s) => o.visited.insert(s.0),
            None => o.visited,
        }),
        v.records == o.records,
        v.root == o.root,
        v.failed == o.failed,
    ensures
        v.nothing_lost(),
{
    lemma_pop_unvisited(o.pending, o.visited);
    assert forall|a: Sexp| o.reached(a) implies v.reached(a) by {
        if !o.visited.contains(a.0) {
            let j = choose|j: int| 0 <= j < o.pending.len() && o.pending[j] == a;
            if j < v.pending.len() {
                assert(v.pending[j] == a);
            }
        }
    }
    assert forall|a: u64| v.visited.contains(a) implies v.recorded(Sexp(a)) || v.current == Some(
        Sexp(a),
    ) by {
        if o.visited.contains(a) {
            assert(o.recorded(Sexp(a)));
        }
    }
    assert forall|i: int, k: int|
        0 <= i < v.records.len() && 0 <= k < v.records[i].children().len() implies v.reached(
        #[trigger] v.records[i].children()[k],
    ) by {
        assert(o.reached(o.records[i].children()[k]));
    }
}

/// At the end of a walk every node reachable from the root is recorded: the
/// root is, and so is every link of every record. With
/// [`lemma_visits_bounded`], the records are exactly the reachable nodes.
pub proof fn lemma_walk_complete(v: WalkerView)
    requires
        v.consistent(),
        v.done(),
    ensures
        v.recorded(v.root),
        v.records.len() > 0 && v.records[0].address == v.root,
        forall|i: int, k: int|
            0 <= i < v.records.len() && 0 <= k < v.records[i].children().len() ==> v.recorded(
                #[trigger] v.records[i].children()[k],
            ),
{
    assert(v.visited.contains(v.root.0));
    assert(Sexp(v.root.0) == v.root);
    assert forall|i: int, k: int|
        0 <= i < v.records.len() && 0 <= k < v.records[i].children().len() implies v.recorded(
        #[trigger] v.records[i].children()[k],
    ) by {
        let c = v.records[i].children()[k];
        assert(v.reached(c));
        assert(Sexp(c.0) == c);
    }
}

proof fn lemma_same_graph(o: WalkerView, v: WalkerView)
    requires
        o.consistent(),
        v.root == o.root,
        v.records == o.records,
        o.visited.subset_of(v.visited),
        forall|a: u64| v.visited.contains(a) && !o.visited.contains(a) ==> v.in_graph(a),
    ensures
        forall|a: u64| v.visited.contains(a) ==> v.in_graph(a),
{
    assert forall|a: u64| v.visited.contains(a) implies v.in_graph(a) by {
        if o.visited.contains(a) {
            assert(o.in_graph(a));
        }
    }
}

/// A walk in progress.
pub struct Walker {
    root: Sexp,
    pending: Vec<Sexp>,
    visited: HashSet<u64>,
    current: Option<Sexp>,
    sexprecs: Vec<Sexprec>,
    failed: Option<UnknownKind>,
}

impl View for Walker {
    type V = WalkerView;

    closed spec fn view(&self) -> WalkerView {
        WalkerView {
            root: self.root,
            pending: self.pending@,
            visited: self.visited@,
            current: self.current,
            records: self.sexprecs@,
            failed: self.failed,
        }
    }
}

impl Walker {
    /// A walk that starts at `root`.
    pub fn new(root: Sexp) -> (w: Walker)
        ensures
            w@ == (WalkerView {
                root,
                pending: seq![root],
                visited: Set::empty(),
                current: None,
                records: Seq::empty(),
                failed: None,
            }),
            w@.consistent(),
    {
        let mut pending: Vec<Sexp> = Vec::new();
        pending.push(root);
        let w = Walker {
            root,
            pending,
            visited: HashSet::new(),
            current: None,
            sexprecs: Vec::new(),
            failed: None,
        };
        assert(w@.pending =~= seq![root]);
        assert(w@.pending[0] == root);
        w
    }

    /// The address handed out last whose record has not come back yet.
    pub fn current(&self) -> (r: Option<Sexp>)
        ensures
            r == self@.current,
    {
        self.current
    }

    /// Hands out the next address to inspect and marks it visited, or returns
    /// `None` once every reachable address has been visited. No address is
    /// handed out twice.
    #[verifier::loop_isolation(false)]
    pub fn next(&mut self) -> (r: Option<Sexp>)
        requires
            old(self)@.consistent(),
            old(self)@.current is None,
        ensures
            final(self)@.consistent(),
            r == pop_unvisited(old(self)@.pending, old(self)@.visited).0,
            final(self)@.pending == pop_unvisited(old(self)@.pending, old(self)@.visited).1,
            final(self)@.visited == (match r {
                Some(s) => old(self)@.visited.insert(s.0),
                None => old(self)@.visited,
            }),
            r matches Some(s) ==> !old(self)@.visited.contains(s.0) && final(self)@.visited.len()
                == old(self)@.visited.len() + 1,
            final(self)@.current == r,
            final(self)@.records == old(self)@.records,
            final(self)@.root == old(self)@.root,
            final(self)@.failed == old(self)@.failed,
    {
        proof {
            lemma_pop_unvisited(old(self)@.pending, old(self)@.visited);
        }
        loop
            invariant
                self@.visited == old(self)@.visited,
                self@.records == old(self)@.records,
                self@.root == old(self)@.root,
                self@.current == old(self)@.current,
                self@.failed == old(self)@.failed,
                pop_unvisited(self@.pending, self@.visited) == pop_unvisited(
                    old(self)@.pending,
                    old(self)@.visited,
                ),
                self@.pending.len() <= old(self)@.pending.len(),
                forall|i: int| 0 <= i < self@.pending.len() ==> self@.pending[i] == old(self)@.pending[i],
                forall|i: int| 0 <= i < self@.pending.len() ==> self@.in_graph(self@.pending[i].0),
            decreases self@.pending.len(),
        {
            let ghost before = self@.pending;
            match self.pending.pop() {
                None => {
                    self.current = None;
                    proof {
                        lemma_same_graph(old(self)@, self@);
                        if old(self)@.failed is None {
                            lemma_next_loses_nothing(old(self)@, self@);
                        }
                    }
                    return None;
                },
                Some(s) => {
                    proof {
                        let j = before.len() - 1;
                        assert(before[j] == old(self)@.pending[j]);
                        assert(old(self)@.in_graph(s.0));
                        assert(self@.in_graph(s.0));
                    }
                    if !self.visited.contains(&s.0) {
                        self.visited.insert(s.0);
                        self.current = Some(s);
                        proof {
                            lemma_same_graph(old(self)@, self@);
                            if old(self)@.failed is None {
                                lemma_next_loses_nothing(old(self)@, self@);
                            }
                        }
                        return Some(s);
                    }
                },
            }
        }
    }

    /// Takes back the record of the address handed out last. Its links are
    /// visited next: the attributes first, then each payload link in order.
    pub fn record(&mut self, rec: Sexprec)
        requires
            old(self)@.consistent(),
            old(self)@.current == Some(rec.address),
            rec.payload.shape() == shape_of(rec.ty),
        ensures
            final(self)@.consistent(),
            final(self)@.records == old(self)@.records.push(rec),
            final(self)@.pending == old(self)@.pending + rec.children().reverse(),
            final(self)@.visited == old(self)@.visited,
            final(self)@.current == None::<Sexp>,
            final(self)@.root == old(self)@.root,
            final(self)@.failed == old(self)@.failed,
    {
        let links = rec.payload.pointers();
        let mut k: usize = links.len();
        while k > 0
            invariant
                k <= links@.len(),
                links@.len() == rec.payload.links().len(),
                forall|i: int| 0 <= i < links@.len() ==> links@[i].1 == rec.payload.links()[i],
                self@.pending == old(self)@.pending + rec.payload.links().subrange(
                    k as int,
                    links@.len() as int,
                ).reverse(),
                self@.visited == old(self)@.visited,
                self@.records == old(self)@.records,
                self@.current == old(self)@.current,
                self@.root == old(self)@.root,
                self@.failed == old(self)@.failed,
            decreases k,
        {
            k = k - 1;
            self.pending.push(links[k].1);
            assert(self@.pending =~= old(self)@.pending + rec.payload.links().subrange(
                k as int,
                links@.len() as int,
            ).reverse());
        }
        self.pending.push(rec.attrib);
        assert(rec.payload.links().subrange(0, links@.len() as int) =~= rec.payload.links());
        assert(self@.pending =~= old(self)@.pending + rec.children().reverse());
        self.current = None;
        self.sexprecs.push(rec);
        proof {
            let v = self@;
            let o = old(self)@;
            assert(v.records[v.records.len() - 1] == rec);
            assert forall|i: int| 0 <= i < v.records.len() - 1 implies v.records[i].address
                != rec.address by {
                assert(o.records[i] == v.records[i]);
            }
            assert forall|a: u64| o.in_graph(a) implies v.in_graph(a) by {
                if a != o.root.0 {
                    let (i, k) = choose|i: int, k: int|
                        0 <= i < o.records.len() && 0 <= k < o.records[i].children().len()
                            && #[trigger] o.records[i].children()[k].0 == a;
                    assert(v.records[i] == o.records[i]);
                }
            }
            let last = v.records.len() - 1;
            let ch = rec.children();
            if o.failed is None {
                assert forall|a: Sexp| o.reached(a) implies v.reached(a) by {
                    if !o.visited.contains(a.0) {
                        let j = choose|j: int| 0 <= j < o.pending.len() && o.pending[j] == a;
                        assert(v.pending[j] == a);
                    }
                }
                assert forall|a: u64| v.visited.contains(a) implies v.recorded(Sexp(a)) || v.current
                    == Some(Sexp(a)) by {
                    if o.recorded(Sexp(a)) {
                        let i = choose|i: int| 0 <= i < o.records.len() && o.records[i].address == Sexp(a);
                        assert(v.records[i] == o.records[i]);
                    } else {
                        assert(v.records[last].address == Sexp(a));
                    }
                }
                assert forall|i: int, k: int|
                    0 <= i < v.records.len() && 0 <= k < v.records[i].children().len() implies v.reached(
                    #[trigger] v.records[i].children()[k],
                ) by {
                    if i < o.records.len() {
                        assert(v.records[i] == o.records[i]);
                        assert(o.reached(o.records[i].children()[k]));
                    } else {
                        let j = o.pending.len() + (ch.len() - 1 - k);
                        assert(v.pending[j] == ch[k]);
                    }
                }
            }
            assert forall|i: int| 0 <= i < v.pending.len() implies v.in_graph(v.pending[i].0) by {
                if i < o.pending.len() {
                    assert(v.pending[i] == o.pending[i]);
                    assert(o.in_graph(o.pending[i].0));
                } else {
                    let k = ch.len() - 1 - (i - o.pending.len());
                    assert(v.pending[i] == ch[k]);
                    assert(v.records[last].children()[k].0 == v.pending[i].0);
                }
            }
        }
    }

    /// Decides the kind of the node handed out last from the tag the inspector
    /// read. A tag outside the enumeration aborts the walk: nothing more is
    /// handed out, and [`Walker::finish`] reports the error instead of records.
    pub fn kind_of(&mut self, tag: i32) -> (r: Result<Sexptype, UnknownKind>)
        requires
            old(self)@.consistent(),
        ensures
            final(self)@.consistent(),
            r == (match kind_of_tag(tag) {
                Some(ty) => Ok::<Sexptype, UnknownKind>(ty),
                None => Err(UnknownKind { tag }),
            }),
            r is Ok ==> final(self)@ == old(self)@,
            r matches Err(e) ==> final(self)@ == (WalkerView {
                pending: Seq::empty(),
                current: None,
                failed: Some(e),
                ..old(self)@
            }),
    {
        let r = Sexptype::try_from_tag(tag);
        match r {
            Ok(_) => {},
            Err(e) => {
                self.pending = Vec::new();
                self.current = None;
                self.failed = Some(e);
                assert(self@.pending =~= Seq::<Sexp>::empty());
                proof {
                    lemma_same_graph(old(self)@, self@);
                }
            },
        }
        r
    }

    /// The recorded nodes, in the order they were first reached: the root first,
    /// and no address twice. A walk run to its end has recorded at least the
    /// root. A walk aborted by an unknown kind gives that error and no record.
    pub fn finish(self) -> (r: Result<Vec<Sexprec>, UnknownKind>)
        requires
            self@.consistent(),
        ensures
            match r {
                Ok(v) => {
                    &&& self@.failed is None
                    &&& v@ == self@.records
                    &&& v@.len() > 0 ==> v@[0].address == self@.root
                    &&& forall|i: int, j: int|
                        0 <= i < j < v@.len() ==> v@[i].address != v@[j].address
                },
                Err(e) => self@.failed == Some(e),
            },
            self@.done() ==> (r matches Ok(v) && v@.len() > 0 && v@[0].address == self@.root),
    {
        proof {
            if self@.done() {
                lemma_walk_complete(self@);
            }
        }
        match self.failed {
            Some(e) => Err(e),
            None => Ok(self.sexprecs),
        }
    }
}

} // verus!
