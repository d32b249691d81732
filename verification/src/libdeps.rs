//! The library dependency resolver: an order-preserving, first-discovery
//! breadth-first closure over declared shared-library dependencies.
//!
//! Locating and reading candidate files is outside work; the resolver is a
//! state machine that a driver feeds.  The driver repeatedly takes the next
//! pending soname, looks it up on the search paths, and reports back either
//! the parsed file (its path, exports and own dependencies) or that the
//! file was not found.  Every answer extends the load order by one
//! descriptor, so the order lists each discovered soname exactly once, in
//! first-discovery order, resolved or not.

use vstd::prelude::*;

use crate::elfdyn::{name_among, string_views};

verus! {

/// One discovered library: its soname, where it was found (or `None` when
/// no search path held it; it still occupies its slot in search order), and
/// the symbol names it exports.
pub struct LibraryDescriptor {
    pub soname: String,
    pub resolved_path: Option<String>,
    pub exported_symbols: Vec<String>,
}

/// Some descriptor of `order` carries soname `nm`.
pub open spec fn order_has(order: Seq<LibraryDescriptor>, nm: Seq<char>) -> bool {
    exists|i: int| 0 <= i < order.len() && order[i].soname@ == nm
}

/// The sonames of the descriptors that no search path resolved, in order.
pub open spec fn unresolved_sonames(order: Seq<LibraryDescriptor>) -> Seq<Seq<char>>
    decreases order.len(),
{
    if order.len() == 0 {
        Seq::empty()
    } else {
        unresolved_sonames(order.drop_last()) + if order.last().resolved_path is None {
            seq![order.last().soname@]
        } else {
            Seq::empty()
        }
    }
}

/// The breadth-first dependency closure state.
pub struct DependencyResolver {
    /// The work queue; `qhead` indexes its next unvisited entry.
    pub queue: Vec<String>,
    pub qhead: usize,
    /// Every soname ever handed out, in first-discovery order.
    pub seen: Vec<String>,
    /// The load order built so far.
    pub order: Vec<LibraryDescriptor>,
    /// One warning per unresolved soname, in discovery order.
    pub warnings: Vec<String>,
    /// The soname handed out and not yet answered, if any.
    pub current: Option<String>,
}

fn contains_name(v: &Vec<String>, s: &String) -> (r: bool)
    ensures
        r == name_among(v@, s@),
{
    let n = v.len();
    let mut i: usize = 0;
    while i < n
        invariant
            n == v@.len(),
            i <= n,
            forall|j: int| 0 <= j < i ==> v@[j]@ != s@,
        decreases n - i,
    {
        if v[i].eq(s) {
            return true;
        }
        i = i + 1;
    }
    false
}

impl DependencyResolver {
    /// Sonames enter the load order once each, only after being handed out,
    /// and each unresolved one leaves exactly one warning.
    pub open spec fn wf(&self) -> bool {
        &&& self.qhead <= self.queue@.len()
        &&& forall|i: int, j: int|
            0 <= i < j < self.order@.len() ==> self.order@[i].soname@ != self.order@[j].soname@
        &&& forall|i: int|
            0 <= i < self.order@.len() ==> name_among(self.seen@, #[trigger] self.order@[i].soname@)
        &&& match self.current {
            Some(c) => name_among(self.seen@, c@) && !order_has(self.order@, c@),
            None => true,
        }
        &&& string_views(self.warnings@) == unresolved_sonames(self.order@)
    }

    /// Seed the closure with the declared dependency list, in its order.
    /// An empty declared list yields an already-exhausted resolver: an
    /// empty load order and no warnings.
    pub fn new(declared: Vec<String>) -> (r: DependencyResolver)
        ensures
            r.wf(),
            r.queue@ == declared@,
            r.qhead == 0,
            r.seen@.len() == 0,
            r.order@.len() == 0,
            r.warnings@.len() == 0,
            r.current is None,
    {
        let r = DependencyResolver {
            queue: declared,
            qhead: 0,
            seen: Vec::new(),
            order: Vec::new(),
            warnings: Vec::new(),
            current: None,
        };
        assert(string_views(r.warnings@) =~= unresolved_sonames(r.order@));
        r
    }

    /// Hand out the next soname not seen before, skipping already-seen
    /// queue entries; `None` when the queue is exhausted (the closure is
    /// complete).  The answer must come through `record_resolved` or
    /// `record_missing` before the next request.
    pub fn next_pending(&mut self) -> (r: Option<String>)
        requires
            old(self).wf(),
            old(self).current is None,
        ensures
            final(self).wf(),
            final(self).queue@ == old(self).queue@,
            final(self).order@ == old(self).order@,
            final(self).warnings@ == old(self).warnings@,
            match r {
                Some(s) => {
                    &&& exists|k: int|
                        old(self).qhead <= k < old(self).queue@.len()
                            && s@ == #[trigger] old(self).queue@[k]@
                            && !name_among(old(self).seen@, old(self).queue@[k]@)
                            && final(self).qhead == k + 1
                            && (forall|m: int|
                            old(self).qhead <= m < k ==> name_among(
                                old(self).seen@,
                                #[trigger] old(self).queue@[m]@,
                            ))
                    &&& string_views(final(self).seen@) == string_views(old(self).seen@).push(s@)
                    &&& match final(self).current {
                        Some(c) => c@ == s@,
                        None => false,
                    }
                },
                None => {
                    &&& final(self).qhead == final(self).queue@.len()
                    &&& forall|m: int|
                        old(self).qhead <= m < old(self).queue@.len() ==> name_among(
                            old(self).seen@,
                            #[trigger] old(self).queue@[m]@,
                        )
                    &&& final(self).seen@ == old(self).seen@
                    &&& final(self).current is None
                },
            },
    {
        let n = self.queue.len();
        while self.qhead < n
            invariant
                self.wf(),
                self.current is None,
                n == self.queue@.len(),
                self.queue@ == old(self).queue@,
                self.seen@ == old(self).seen@,
                self.order@ == old(self).order@,
                self.warnings@ == old(self).warnings@,
                old(self).qhead <= self.qhead,
                forall|m: int|
                    old(self).qhead <= m < self.qhead ==> name_among(
                        old(self).seen@,
                        #[trigger] old(self).queue@[m]@,
                    ),
            decreases n - self.qhead,
        {
            let k = self.qhead;
            let already = contains_name(&self.seen, &self.queue[k]);
            if !already {
                let s = self.queue[k].clone();
                self.seen.push(s.clone());
                self.current = Some(s.clone());
                self.qhead = k + 1;
                proof {
                    assert(string_views(self.seen@) =~= string_views(old(self).seen@).push(s@));
                    assert(name_among(self.seen@, s@)) by {
                        assert(self.seen@[self.seen@.len() - 1]@ == s@);
                    }
                    assert(!order_has(self.order@, s@)) by {
                        if order_has(self.order@, s@) {
                            let w = choose|i: int|
                                0 <= i < self.order@.len() && self.order@[i].soname@ == s@;
                            assert(name_among(old(self).seen@, self.order@[w].soname@));
                            let w2 = choose|l: int|
                                0 <= l < old(self).seen@.len() && old(self).seen@[l]@ == s@;
                        }
                    }
                    assert forall|i: int| 0 <= i < self.order@.len() implies name_among(
                        self.seen@,
                        #[trigger] self.order@[i].soname@,
                    ) by {
                        assert(name_among(old(self).seen@, self.order@[i].soname@));
                        let w = choose|l: int|
                            0 <= l < old(self).seen@.len() && old(self).seen@[l]@
                                == self.order@[i].soname@;
                        assert(self.seen@[w]@ == self.order@[i].soname@);
                    }
                }
                return Some(s);
            }
            self.qhead = k + 1;
        }
        None
    }

    /// Record that the current soname was found: its descriptor joins the
    /// load order resolved at `path` with its `exports`, and its own
    /// declared dependencies join the back of the queue in their order.
    pub fn record_resolved(&mut self, path: String, exports: Vec<String>, deps: Vec<String>)
        requires
            old(self).wf(),
            old(self).current is Some,
        ensures
            final(self).wf(),
            final(self).current is None,
            final(self).queue@ == old(self).queue@ + deps@,
            final(self).qhead == old(self).qhead,
            final(self).seen@ == old(self).seen@,
            final(self).warnings@ == old(self).warnings@,
            final(self).order@.len() == old(self).order@.len() + 1,
            final(self).order@.subrange(0, old(self).order@.len() as int) == old(self).order@,
            final(self).order@.last().soname@ == old(self).current.unwrap()@,
            final(self).order@.last().resolved_path matches Some(p) && p@ == path@,
            final(self).order@.last().exported_symbols@ == exports@,
    {
        let soname = match &self.current {
            Some(s) => s.clone(),
            None => {
                proof {
                    assert(false);
                }
                String::new()
            },
        };
        let desc = LibraryDescriptor { soname, resolved_path: Some(path), exported_symbols: exports };
        let ghost oldorder = self.order@;
        self.order.push(desc);
        self.current = None;
        let mut deps = deps;
        self.queue.append(&mut deps);
        proof {
            assert(self.order@.subrange(0, oldorder.len() as int) =~= oldorder);
            assert(self.order@.drop_last() =~= oldorder);
            assert(string_views(self.warnings@) =~= unresolved_sonames(self.order@));
            assert forall|i: int, j: int|
                0 <= i < j < self.order@.len() implies self.order@[i].soname@
                != self.order@[j].soname@ by {
                if j < oldorder.len() {
                } else {
                    assert(self.order@[j].soname@ == old(self).current.unwrap()@);
                    assert(!order_has(oldorder, old(self).current.unwrap()@));
                    assert(self.order@[i] == oldorder[i]);
                }
            }
            assert forall|i: int| 0 <= i < self.order@.len() implies name_among(
                self.seen@,
                #[trigger] self.order@[i].soname@,
            ) by {
                if i < oldorder.len() {
                    assert(self.order@[i] == oldorder[i]);
                    assert(name_among(old(self).seen@, oldorder[i].soname@));
                } else {
                    assert(self.order@[i].soname@ == old(self).current.unwrap()@);
                    assert(name_among(old(self).seen@, old(self).current.unwrap()@));
                }
            }
        }
    }

    /// Record that no search path held the current soname: an unresolved
    /// descriptor still takes its slot in the load order (so the soname is
    /// never queried again), and one warning is recorded.
    pub fn record_missing(&mut self)
        requires
            old(self).wf(),
            old(self).current is Some,
        ensures
            final(self).wf(),
            final(self).current is None,
            final(self).queue@ == old(self).queue@,
            final(self).qhead == old(self).qhead,
            final(self).seen@ == old(self).seen@,
            string_views(final(self).warnings@) == string_views(old(self).warnings@).push(
                old(self).current.unwrap()@,
            ),
            final(self).order@.len() == old(self).order@.len() + 1,
            final(self).order@.subrange(0, old(self).order@.len() as int) == old(self).order@,
            final(self).order@.last().soname@ == old(self).current.unwrap()@,
            final(self).order@.last().resolved_path is None,
            final(self).order@.last().exported_symbols@.len() == 0,
    {
        let soname = match &self.current {
            Some(s) => s.clone(),
            None => {
                proof {
                    assert(false);
                }
                String::new()
            },
        };
        let warning = soname.clone();
        let desc = LibraryDescriptor {
            soname,
            resolved_path: None,
            exported_symbols: Vec::new(),
        };
        let ghost oldorder = self.order@;
        self.order.push(desc);
        self.warnings.push(warning);
        self.current = None;
        proof {
            assert(self.order@.subrange(0, oldorder.len() as int) =~= oldorder);
            assert(self.order@.drop_last() =~= oldorder);
            assert(string_views(self.warnings@) =~= unresolved_sonames(self.order@));
            assert forall|i: int, j: int|
                0 <= i < j < self.order@.len() implies self.order@[i].soname@
                != self.order@[j].soname@ by {
                if j < oldorder.len() {
                } else {
                    assert(self.order@[j].soname@ == old(self).current.unwrap()@);
                    assert(!order_has(oldorder, old(self).current.unwrap()@));
                    assert(self.order@[i] == oldorder[i]);
                }
            }
            assert forall|i: int| 0 <= i < self.order@.len() implies name_among(
                self.seen@,
                #[trigger] self.order@[i].soname@,
            ) by {
                if i < oldorder.len() {
                    assert(self.order@[i] == oldorder[i]);
                    assert(name_among(old(self).seen@, oldorder[i].soname@));
                } else {
                    assert(self.order@[i].soname@ == old(self).current.unwrap()@);
                    assert(name_among(old(self).seen@, old(self).current.unwrap()@));
                }
            }
        }
    }
}

} // verus!
