//! Scope chains: singly-linked lists of links, each wrapping one object
//! as its locals bag, tagged with the class that identifier resolution
//! and writing go by. Links live in the heap's scope arena; a link's
//! parent always has a smaller index, so every chain is finite.
use crate::error::AvmError;
use crate::heap::{Context, Heap, LocalSlot, SearchResult};
use crate::object::Object;
use crate::property::{Attribute, Property};
use crate::value::{Value, ValueView};
use vstd::prelude::*;

verus! {

/// What kind of scope a link is.
#[derive(Clone, Copy, PartialEq, Eq, Structural, Debug)]
pub enum ScopeClass {
    /// The global scope.
    Global,
    /// Timeline scope: the default destination of unqualified writes,
    /// replaceable by target redirection.
    Target,
    /// Local scope of a function invocation; inherited by closures.
    Local,
    /// Scope pushed by a dynamic-scoping block; never inherited by
    /// closures.
    With,
}

/// A reference to a scope link: an index into the heap's scope arena.
#[derive(Clone, Copy, PartialEq, Eq, Structural, Debug)]
pub struct ScopeRef(pub usize);

/// One link of a scope chain.
#[derive(Clone, Copy, PartialEq, Eq, Structural, Debug)]
pub struct ScopeData {
    pub parent: Option<ScopeRef>,
    pub class: ScopeClass,
    pub values: Object,
}

impl Heap {
    /// The chain from a link outward, innermost first, each link as its
    /// class and its locals object.
    pub open spec fn spec_scope_chain(&self, s: ScopeRef) -> Seq<(ScopeClass, Object)>
        decreases s.0,
    {
        if !self.has_scope(s) {
            Seq::empty()
        } else {
            let d = self.scope(s);
            seq![(d.class, d.values)] + (match d.parent {
                Some(p) => if p.0 < s.0 {
                    self.spec_scope_chain(p)
                } else {
                    Seq::empty()
                },
                None => Seq::empty(),
            })
        }
    }

    /// The chain with every dynamic-scoping link removed, from `i` on.
    pub open spec fn spec_drop_with_from(c: Seq<(ScopeClass, Object)>, i: int) -> Seq<
        (ScopeClass, Object),
    >
        decreases c.len() - i,
    {
        if i < 0 || i >= c.len() {
            Seq::empty()
        } else if c[i].0 is With {
            Self::spec_drop_with_from(c, i + 1)
        } else {
            seq![c[i]] + Self::spec_drop_with_from(c, i + 1)
        }
    }

    /// The chain with every timeline link's locals replaced, from `i`
    /// on.
    pub open spec fn spec_retarget_from(
        c: Seq<(ScopeClass, Object)>,
        clip: Object,
        i: int,
    ) -> Seq<(ScopeClass, Object)>
        decreases c.len() - i,
    {
        if i < 0 || i >= c.len() {
            Seq::empty()
        } else {
            seq![
                (
                    c[i].0,
                    if c[i].0 is Target {
                        clip
                    } else {
                        c[i].1
                    },
                ),
            ] + Self::spec_retarget_from(c, clip, i + 1)
        }
    }

    /// Allocating new links never disturbs the chain of an existing
    /// one.
    proof fn lemma_scope_chain_stable(pre: &Heap, post: &Heap, s: ScopeRef)
        requires
            s.0 < pre.scope_seq().len(),
            pre.scope_seq().len() <= post.scope_seq().len(),
            forall|k: int|
                0 <= k < pre.scope_seq().len() ==> #[trigger] post.scope_seq()[k]
                    == pre.scope_seq()[k],
        ensures
            post.spec_scope_chain(s) == pre.spec_scope_chain(s),
        decreases s.0,
    {
        let d = pre.scope(s);
        match d.parent {
            Some(p) => {
                if p.0 < s.0 {
                    Self::lemma_scope_chain_stable(pre, post, p);
                }
            },
            None => {},
        }
    }

    /// Appends one scope link.
    fn alloc_scope(&mut self, parent: Option<ScopeRef>, class: ScopeClass, values: Object) -> (r:
        ScopeRef)
        requires
            old(self).wf(),
            old(self).has_obj(values),
            match parent {
                Some(p) => old(self).has_scope(p),
                None => true,
            },
        ensures
            final(self).wf(),
            final(self).grown_from(old(self)),
            final(self).objs() == old(self).objs(),
            final(self).scope_seq() == old(self).scope_seq().push(
                ScopeData { parent, class, values },
            ),
            r.0 == old(self).scope_seq().len(),
            final(self).has_scope(r),
            final(self).spec_scope_chain(r) == seq![(class, values)] + (match parent {
                Some(p) => old(self).spec_scope_chain(p),
                None => Seq::<(ScopeClass, Object)>::empty(),
            }),
    {
        let i = self.scopes.len();
        self.scopes.push(ScopeData { parent, class, values });
        let r = ScopeRef(i);
        proof {
            assert(self.scope_seq() =~= old(self).scope_seq().push(
                ScopeData { parent, class, values },
            ));
            assert forall|k: int| 0 <= k < self.objs().len() implies self.spec_wf_obj_at(k) by {
                assert(old(self).spec_wf_obj_at(k));
                let dk = self.objs()[k];
                assert forall|j: int| 0 <= j < dk.values.spec_len() implies self.spec_wf_prop(
                    #[trigger] dk.values.spec_val(j),
                ) by {
                    assert(old(self).spec_wf_prop(dk.values.spec_val(j)));
                };
                assert forall|j: int| 0 <= j < dk.interfaces@.len() implies self.has_obj(
                    #[trigger] dk.interfaces@[j],
                ) by {
                    assert(old(self).has_obj(dk.interfaces@[j]));
                };
                assert forall|j: int| 0 <= j < dk.watchers.spec_len() implies self.has_obj(
                    (#[trigger] dk.watchers.spec_val(j)).callback,
                ) && self.spec_wf_value(dk.watchers.spec_val(j).user_data@) by {
                    assert(old(self).has_obj(dk.watchers.spec_val(j).callback));
                    assert(old(self).spec_wf_value(dk.watchers.spec_val(j).user_data@));
                };
                assert(old(self).spec_wf_kind(dk.kind, k));
                assert(self.spec_wf_kind(dk.kind, k));
            };
            assert forall|k: int|
                0 <= k < self.scope_seq().len() implies self.spec_wf_scope_at(k) by {
                if k < i {
                    assert(old(self).spec_wf_scope_at(k));
                }
            };
            assert forall|k: int|
                0 <= k < self.xml_node_seq().len() implies self.spec_wf_xml_node_at(k) by {
                assert(old(self).spec_wf_xml_node_at(k));
            };
            assert forall|k: int|
                0 <= k < self.xml_doc_seq().len() implies self.spec_wf_xml_doc_at(k) by {
                assert(old(self).spec_wf_xml_doc_at(k));
            };
            match parent {
                Some(p) => {
                    Self::lemma_scope_chain_stable(old(self), self, p);
                },
                None => {},
            }
        }
        r
    }

    /// A global scope: one link without a parent over the global
    /// object.
    pub fn from_global_object(&mut self, globals: Object) -> (r: ScopeRef)
        requires
            old(self).wf(),
            old(self).has_obj(globals),
        ensures
            final(self).wf(),
            final(self).grown_from(old(self)),
            final(self).objs() == old(self).objs(),
            final(self).has_scope(r),
            final(self).spec_scope_chain(r) == seq![(ScopeClass::Global, globals)],
            r.0 == old(self).scope_seq().len(),
            final(self).scope_seq().len() == old(self).scope_seq().len() + 1,
            final(self).scope(r) == (ScopeData {
                parent: None,
                class: ScopeClass::Global,
                values: globals,
            }),
    {
        let r = self.alloc_scope(None, ScopeClass::Global, globals);
        proof {
            assert(seq![(ScopeClass::Global, globals)] + Seq::<(ScopeClass, Object)>::empty()
                =~= seq![(ScopeClass::Global, globals)]);
        }
        r
    }

    /// A child local scope over a fresh empty locals bag.
    pub fn new_local_scope(&mut self, parent: ScopeRef) -> (r: ScopeRef)
        requires
            old(self).wf(),
            old(self).has_scope(parent),
        ensures
            final(self).wf(),
            final(self).grown_from(old(self)),
            final(self).has_scope(r),
            final(self).spec_scope_chain(r) == seq![
                (ScopeClass::Local, final(self).scope(r).values),
            ] + old(self).spec_scope_chain(parent),
            final(self).obj(final(self).scope(r).values).values.spec_len() == 0,
            r.0 == old(self).scope_seq().len(),
            final(self).scope_seq().len() == old(self).scope_seq().len() + 1,
            final(self).scope(r).parent == Some(parent),
            final(self).scope(r).class is Local,
            final(self).scope(r).values.0 == old(self).objs().len(),
            final(self).objs().len() == old(self).objs().len() + 1,
            final(self).obj(final(self).scope(r).values).prototype@ == ValueView::Undefined,
    {
        let locals = self.bare_object();
        let ghost mid = *self;
        let r = self.alloc_scope(Some(parent), ScopeClass::Local, locals);
        proof {
            Heap::lemma_scope_chain_stable(old(self), &mid, parent);
        }
        r
    }

    /// A dynamic-scoping link over an arbitrary object, pushed in front
    /// of the chain.
    pub fn new_with_scope(&mut self, parent: ScopeRef, with_object: Object) -> (r: ScopeRef)
        requires
            old(self).wf(),
            old(self).has_scope(parent),
            old(self).has_obj(with_object),
        ensures
            final(self).wf(),
            final(self).grown_from(old(self)),
            final(self).objs() == old(self).objs(),
            final(self).has_scope(r),
            final(self).spec_scope_chain(r) == seq![(ScopeClass::With, with_object)] + old(self).spec_scope_chain(parent),
            r.0 == old(self).scope_seq().len(),
            final(self).scope_seq().len() == old(self).scope_seq().len() + 1,
            final(self).scope(r) == (ScopeData {
                parent: Some(parent),
                class: ScopeClass::With,
                values: with_object,
            }),
    {
        self.alloc_scope(Some(parent), ScopeClass::With, with_object)
    }

    /// An arbitrary link.
    pub fn new_scope(&mut self, parent: Option<ScopeRef>, class: ScopeClass, values: Object) -> (r:
        ScopeRef)
        requires
            old(self).wf(),
            old(self).has_obj(values),
            match parent {
                Some(p) => old(self).has_scope(p),
                None => true,
            },
        ensures
            final(self).wf(),
            final(self).grown_from(old(self)),
            final(self).objs() == old(self).objs(),
            final(self).has_scope(r),
            final(self).spec_scope_chain(r) == seq![(class, values)] + (match parent {
                Some(p) => old(self).spec_scope_chain(p),
                None => Seq::<(ScopeClass, Object)>::empty(),
            }),
            r.0 == old(self).scope_seq().len(),
            final(self).scope_seq().len() == old(self).scope_seq().len() + 1,
            final(self).scope(r) == (ScopeData { parent, class, values }),
    {
        self.alloc_scope(parent, class, values)
    }

    /// Reads a chain into a vector, innermost first.
    fn collect_chain(&self, s: ScopeRef) -> (r: Vec<(ScopeClass, Object)>)
        requires
            self.wf(),
            self.has_scope(s),
        ensures
            r@ == self.spec_scope_chain(s),
            forall|i: int| 0 <= i < r@.len() ==> self.has_obj((#[trigger] r@[i]).1),
    {
        let mut out: Vec<(ScopeClass, Object)> = Vec::new();
        let mut cur = s;
        loop
            invariant
                self.wf(),
                self.has_scope(cur),
                self.spec_scope_chain(s) == out@ + self.spec_scope_chain(cur),
                forall|i: int| 0 <= i < out@.len() ==> self.has_obj((#[trigger] out@[i]).1),
            decreases cur.0,
        {
            proof {
                assert(self.spec_wf_scope_at(cur.0 as int));
            }
            let d = self.scopes[cur.0];
            let ghost pre = out@;
            out.push((d.class, d.values));
            proof {
                assert(pre + self.spec_scope_chain(cur) =~= out@ + (match d.parent {
                    Some(p) => if p.0 < cur.0 {
                        self.spec_scope_chain(p)
                    } else {
                        Seq::<(ScopeClass, Object)>::empty()
                    },
                    None => Seq::<(ScopeClass, Object)>::empty(),
                }));
            }
            match d.parent {
                Some(p) => {
                    cur = p;
                },
                None => {
                    proof {
                        assert(self.spec_scope_chain(s) =~= out@);
                    }
                    return out;
                },
            }
        }
    }

    /// Builds a fresh chain holding exactly the given links (innermost
    /// first), cloning each link but sharing its locals object.
    fn build_chain(&mut self, links: &Vec<(ScopeClass, Object)>) -> (r: Option<ScopeRef>)
        requires
            old(self).wf(),
            forall|i: int| 0 <= i < links@.len() ==> old(self).has_obj((#[trigger] links@[i]).1),
        ensures
            final(self).wf(),
            final(self).grown_from(old(self)),
            final(self).objs() == old(self).objs(),
            links@.len() == 0 <==> r is None,
            match r {
                Some(s) => final(self).has_scope(s) && final(self).spec_scope_chain(s) == links@
                    && s.0 >= old(self).scope_seq().len(),
                None => true,
            },
    {
        let mut prev: Option<ScopeRef> = None;
        let mut i: usize = links.len();
        while i > 0
            invariant
                self.wf(),
                self.grown_from(old(self)),
                self.objs() == old(self).objs(),
                i <= links@.len(),
                forall|k: int| 0 <= k < links@.len() ==> old(self).has_obj((#[trigger] links@[k]).1),
                match prev {
                    Some(p) => self.has_scope(p) && self.spec_scope_chain(p) == links@.subrange(
                        i as int,
                        links@.len() as int,
                    ) && p.0 >= old(self).scope_seq().len(),
                    None => i == links@.len(),
                },
            decreases i,
        {
            i -= 1;
            let (class, values) = links[i];
            let ghost pre = *self;
            let s = self.alloc_scope(prev, class, values);
            proof {
                match prev {
                    Some(p) => {
                        Heap::lemma_scope_chain_stable(&pre, self, p);
                    },
                    None => {},
                }
                assert(self.spec_scope_chain(s) =~= links@.subrange(i as int, links@.len() as int));
            }
            prev = Some(s);
        }
        proof {
            match prev {
                Some(p) => {
                    assert(links@.subrange(0, links@.len() as int) =~= links@);
                },
                None => {},
            }
        }
        prev
    }

    /// Derives the chain a closure captures: every dynamic-scoping link
    /// is dropped; the remaining links keep their order and share their
    /// locals objects; were every link dropped, a single fresh global
    /// scope over an empty object takes their place.
    pub fn new_closure_scope(&mut self, parent: ScopeRef) -> (r: ScopeRef)
        requires
            old(self).wf(),
            old(self).has_scope(parent),
        ensures
            final(self).wf(),
            final(self).grown_from(old(self)),
            final(self).has_scope(r),
            r.0 >= old(self).scope_seq().len(),
            ({
                let kept = Self::spec_drop_with_from(old(self).spec_scope_chain(parent), 0);
                if kept.len() > 0 {
                    final(self).spec_scope_chain(r) == kept && final(self).objs() == old(self).objs()
                } else {
                    final(self).spec_scope_chain(r).len() == 1 && final(self).spec_scope_chain(
                        r,
                    )[0].0 is Global && final(self).obj(
                        final(self).spec_scope_chain(r)[0].1,
                    ).values.spec_len() == 0 && final(self).spec_scope_chain(r)[0].1.0 >= old(self).objs().len() && final(self).obj(
                        final(self).spec_scope_chain(r)[0].1,
                    ).prototype@ == ValueView::Undefined
                }
            }),
    {
        let chain = self.collect_chain(parent);
        let mut kept: Vec<(ScopeClass, Object)> = Vec::new();
        let mut i: usize = 0;
        let ghost full = chain@;
        while i < chain.len()
            invariant
                i <= chain@.len(),
                full == chain@,
                Self::spec_drop_with_from(full, 0) == kept@ + Self::spec_drop_with_from(
                    full,
                    i as int,
                ),
                forall|k: int|
                    0 <= k < kept@.len() ==> old(self).has_obj((#[trigger] kept@[k]).1),
                forall|k: int|
                    0 <= k < chain@.len() ==> old(self).has_obj((#[trigger] chain@[k]).1),
            decreases chain@.len() - i,
        {
            let ghost pre = kept@;
            let (class, values) = chain[i];
            if !matches!(class, ScopeClass::With) {
                kept.push((class, values));
            }
            proof {
                assert(pre + Self::spec_drop_with_from(full, i as int) =~= kept@
                    + Self::spec_drop_with_from(full, i + 1));
            }
            i += 1;
        }
        proof {
            assert(Self::spec_drop_with_from(full, full.len() as int)
                =~= Seq::<(ScopeClass, Object)>::empty());
            assert(kept@ =~= Self::spec_drop_with_from(full, 0));
        }
        match self.build_chain(&kept) {
            Some(s) => s,
            None => {
                let bag = self.bare_object();
                let r = self.alloc_scope(None, ScopeClass::Global, bag);
                proof {
                    assert(self.spec_scope_chain(r) =~= seq![(ScopeClass::Global, bag)]);
                }
                r
            },
        }
    }

    /// The chain for redirected (timeline-replacement) execution: every
    /// timeline link's locals are swapped for the replacement object,
    /// every other link is kept as it is (all links cloned, their locals
    /// shared). An empty chain falls back to a fresh global scope.
    pub fn new_target_scope(&mut self, parent: ScopeRef, clip: Object) -> (r: ScopeRef)
        requires
            old(self).wf(),
            old(self).has_scope(parent),
            old(self).has_obj(clip),
        ensures
            final(self).wf(),
            final(self).grown_from(old(self)),
            final(self).has_scope(r),
            r.0 >= old(self).scope_seq().len(),
            old(self).spec_scope_chain(parent).len() > 0 ==> final(self).spec_scope_chain(r)
                == Self::spec_retarget_from(old(self).spec_scope_chain(parent), clip, 0) && final(self).objs() == old(self).objs(),
    {
        let chain = self.collect_chain(parent);
        let mut mapped: Vec<(ScopeClass, Object)> = Vec::new();
        let mut i: usize = 0;
        let ghost full = chain@;
        while i < chain.len()
            invariant
                i <= chain@.len(),
                full == chain@,
                Self::spec_retarget_from(full, clip, 0) == mapped@ + Self::spec_retarget_from(
                    full,
                    clip,
                    i as int,
                ),
                old(self).has_obj(clip),
                forall|k: int|
                    0 <= k < mapped@.len() ==> old(self).has_obj((#[trigger] mapped@[k]).1),
                forall|k: int|
                    0 <= k < chain@.len() ==> old(self).has_obj((#[trigger] chain@[k]).1),
            decreases chain@.len() - i,
        {
            let ghost pre = mapped@;
            let (class, values) = chain[i];
            let v2 = if matches!(class, ScopeClass::Target) {
                clip
            } else {
                values
            };
            mapped.push((class, v2));
            proof {
                assert(pre + Self::spec_retarget_from(full, clip, i as int) =~= mapped@
                    + Self::spec_retarget_from(full, clip, i + 1));
            }
            i += 1;
        }
        proof {
            assert(Self::spec_retarget_from(full, clip, full.len() as int)
                =~= Seq::<(ScopeClass, Object)>::empty());
            assert(mapped@ =~= Self::spec_retarget_from(full, clip, 0));
        }
        match self.build_chain(&mapped) {
            Some(s) => s,
            None => {
                let bag = self.bare_object();
                self.alloc_scope(None, ScopeClass::Global, bag)
            },
        }
    }

    /// The locals object of the first link outward that answers for the
    /// name, walking exactly as resolution does.
    pub open spec fn spec_resolve_scope(&self, s: ScopeRef, name: Seq<char>, cs: bool) -> Option<
        Object,
    >
        decreases s.0,
    {
        if !self.has_scope(s) {
            None
        } else {
            let d = self.scope(s);
            if self.has_obj(d.values) && self.spec_has_property(
                ValueView::Object(d.values),
                name,
                cs,
                255,
            ) {
                Some(d.values)
            } else {
                match d.parent {
                    Some(p) => if p.0 < s.0 {
                        self.spec_resolve_scope(p, name, cs)
                    } else {
                        None
                    },
                    None => None,
                }
            }
        }
    }

    /// Resolves a bare identifier: the first link whose locals (or
    /// their prototypes) answer for the name wins, and its locals
    /// object is handed back as the `this` an unqualified call of the
    /// value would bind.
    pub fn resolve(&mut self, s: ScopeRef, name: &str, ctx: &Context, fuel: u32) -> (r: Result<
        crate::callable_value::CallableValue,
        AvmError,
    >)
        requires
            old(self).wf(),
            old(self).has_scope(s),
            old(self).spec_valid_ctx(*ctx),
        ensures
            final(self).wf(),
            final(self).extends(old(self)),
            final(self).spec_valid_ctx(*ctx),
            fuel >= 1 && old(self).spec_resolve_scope(s, name@, ctx.spec_case_sensitive())
                is None ==> r is Ok && (r matches Ok(cv) ==> cv
                matches crate::callable_value::CallableValue::UnCallable(v) && v@
                == ValueView::Undefined) && *final(self) == *old(self),
            match old(self).spec_resolve_scope(s, name@, ctx.spec_case_sensitive()) {
                Some(loc) => match r {
                    Ok(cv) => cv matches crate::callable_value::CallableValue::Callable(t, _) && t
                        == loc,
                    Err(_) => true,
                },
                None => true,
            },
            ({
                let cs = ctx.spec_case_sensitive();
                match old(self).spec_resolve_scope(s, name@, cs) {
                    Some(loc) => name@ != "__proto__"@ ==> match old(self).spec_search(
                        ValueView::Object(loc),
                        name@,
                        cs,
                        255,
                    ) {
                        SearchResult::Hit { slot: LocalSlot::Stored(v), .. } => fuel >= 1 ==> r
                            is Ok && (r matches Ok(cv) ==> cv
                            matches crate::callable_value::CallableValue::Callable(t, x) && t
                            == loc && x@ == v) && *final(self) == *old(self),
                        _ => true,
                    },
                    None => true,
                }
            }),
        decreases fuel,
    {
        if fuel == 0 {
            return Err(AvmError::ExecutionLimit);
        }
        let mut cur = s;
        loop
            invariant
                self.wf(),
                self.has_scope(cur),
                self.spec_valid_ctx(*ctx),
                *self == *old(self),
                fuel >= 1,
                self.spec_resolve_scope(s, name@, ctx.spec_case_sensitive())
                    == self.spec_resolve_scope(cur, name@, ctx.spec_case_sensitive()),
            decreases cur.0,
        {
            proof {
                assert(self.spec_wf_scope_at(cur.0 as int));
            }
            let d = self.scopes[cur.0];
            if self.has_property(d.values, name, ctx) {
                let v = match self.get(d.values, name, ctx, (fuel - 1) as u32) {
                    Ok(v) => v,
                    Err(e) => { return Err(e) },
                };
                return Ok(crate::callable_value::CallableValue::Callable(d.values, v));
            }
            match d.parent {
                Some(p) => {
                    cur = p;
                },
                None => {
                    return Ok(
                        crate::callable_value::CallableValue::UnCallable(Value::Undefined),
                    );
                },
            }
        }
    }

    /// Whether the name is defined anywhere along the chain.
    pub fn is_defined(&self, s: ScopeRef, name: &str, ctx: &Context) -> (r: bool)
        requires
            self.wf(),
            self.has_scope(s),
        ensures
            r == (self.spec_resolve_scope(s, name@, ctx.spec_case_sensitive()) is Some),
    {
        let mut cur = s;
        loop
            invariant
                self.wf(),
                self.has_scope(cur),
                self.spec_resolve_scope(s, name@, ctx.spec_case_sensitive())
                    == self.spec_resolve_scope(cur, name@, ctx.spec_case_sensitive()),
            decreases cur.0,
        {
            proof {
                assert(self.spec_wf_scope_at(cur.0 as int));
            }
            let d = self.scopes[cur.0];
            if self.has_property(d.values, name, ctx) {
                return true;
            }
            match d.parent {
                Some(p) => {
                    cur = p;
                },
                None => {
                    return false;
                },
            }
        }
    }

    /// The locals object an unqualified write of the name lands on: the
    /// first link outward that either is a timeline scope or already
    /// has the property.
    pub open spec fn spec_write_scope(&self, s: ScopeRef, name: Seq<char>, cs: bool) -> Option<
        Object,
    >
        decreases s.0,
    {
        if !self.has_scope(s) {
            None
        } else {
            let d = self.scope(s);
            if d.class is Target || (self.has_obj(d.values) && self.spec_has_property(
                ValueView::Object(d.values),
                name,
                cs,
                255,
            )) {
                Some(d.values)
            } else {
                match d.parent {
                    Some(p) => if p.0 < s.0 {
                        self.spec_write_scope(p, name, cs)
                    } else {
                        None
                    },
                    None => None,
                }
            }
        }
    }

    /// Writes a bare identifier: the walk stops at a timeline scope or
    /// at any scope whose locals already have the property, and writes
    /// there; a chain without either (which a well-built chain never
    /// is) writes on the outermost link.
    pub fn set_in_scope(
        &mut self,
        s: ScopeRef,
        name: &str,
        value: Value,
        ctx: &Context,
        fuel: u32,
    ) -> (r: Result<(), AvmError>)
        requires
            old(self).wf(),
            old(self).has_scope(s),
            old(self).spec_wf_value(value@),
            old(self).spec_valid_ctx(*ctx),
        ensures
            final(self).wf(),
            final(self).extends(old(self)),
            final(self).spec_valid_ctx(*ctx),
            ({
                let cs = ctx.spec_case_sensitive();
                match old(self).spec_write_scope(s, name@, cs) {
                    Some(loc) => (fuel >= 2 && name@ != "__proto__"@ && name@.len() != 0 && old(self).spec_set_clean(loc, name@, cs)) ==> ((r matches Err(e) ==> e@
                        == crate::error::AvmErrorView::PrototypeRecursionLimit) && (r is Ok
                        ==> final(self).objs().len() == old(self).objs().len() && final(self).grown_except(old(self), loc.0 as int) && Heap::spec_same_but_values(
                        old(self).obj(loc),
                        final(self).obj(loc),
                    ) && Heap::spec_plain_write(
                        old(self).obj(loc).values,
                        final(self).obj(loc).values,
                        name@,
                        cs,
                        value,
                    ))),
                    None => true,
                }
            }),
        decreases fuel,
    {
        if fuel == 0 {
            return Err(AvmError::ExecutionLimit);
        }
        let mut cur = s;
        loop
            invariant
                self.wf(),
                self.has_scope(cur),
                self.spec_valid_ctx(*ctx),
                self.spec_wf_value(value@),
                *self == *old(self),
                fuel >= 1,
                self.spec_write_scope(s, name@, ctx.spec_case_sensitive())
                    == self.spec_write_scope(cur, name@, ctx.spec_case_sensitive()),
            decreases cur.0,
        {
            proof {
                assert(self.spec_wf_scope_at(cur.0 as int));
            }
            let d = self.scopes[cur.0];
            if matches!(d.class, ScopeClass::Target) || self.has_property(d.values, name, ctx) {
                return self.set(d.values, name, value, ctx, (fuel - 1) as u32);
            }
            match d.parent {
                Some(p) => {
                    cur = p;
                },
                None => {
                    // a well-built chain ends in a timeline scope; an
                    // ill-built one degrades to writing the outermost
                    // link
                    return self.set(d.values, name, value, ctx, (fuel - 1) as u32);
                },
            }
        }
    }

    /// Declares a local: a force-write of a plain stored property
    /// directly into the innermost locals, no outward walk.
    pub fn define(&mut self, s: ScopeRef, name: &str, value: Value, ctx: &Context)
        requires
            old(self).wf(),
            old(self).has_scope(s),
            old(self).spec_wf_value(value@),
        ensures
            final(self).wf(),
            final(self).extends(old(self)),
            final(self).spec_values_op(old(self), old(self).scope(s).values),
            old(self).obj(old(self).scope(s).values).kind is Super ==> *final(self) == *old(self),
            !(old(self).obj(old(self).scope(s).values).kind is Super) ==> (exists|p: Property|
                crate::property::spec_is_stored(
                    p,
                    value,
                    Attribute { dont_enum: false, dont_delete: false, read_only: false },
                ) && crate::property_map::spec_inserted(
                    old(self).obj(old(self).scope(s).values).values,
                    final(self).obj(old(self).scope(s).values).values,
                    name@,
                    true,
                    p,
                )) && final(self).spec_get_data(old(self).scope(s).values, name@, true) == value@,
    {
        let _ = ctx;
        proof {
            assert(self.spec_wf_scope_at(s.0 as int));
        }
        let d = self.scopes[s.0];
        self.define_value(d.values, name, value, Attribute::empty());
    }

    /// Deletes the name from the first link outward whose locals answer
    /// for it.
    pub fn delete_in_scope(&mut self, s: ScopeRef, name: &str, ctx: &Context) -> (r: bool)
        requires
            old(self).wf(),
            old(self).has_scope(s),
        ensures
            final(self).wf(),
            final(self).extends(old(self)),
            old(self).spec_resolve_scope(s, name@, ctx.spec_case_sensitive()) is None ==> !r
                && *final(self) == *old(self),
            ({
                let cs = ctx.spec_case_sensitive();
                match old(self).spec_resolve_scope(s, name@, cs) {
                    Some(loc) => final(self).spec_values_op(old(self), loc) && (old(self).obj(
                        loc,
                    ).kind is Super ==> !r && *final(self) == *old(self)) && (!(old(self).obj(
                        loc,
                    ).kind is Super) ==> ({
                        let t = old(self).obj(loc).values;
                        let i = t.spec_find(name@, cs);
                        if i >= 0 && t.spec_val(i).spec_can_delete() {
                            r && final(self).obj(loc).values.spec_entries() == t.spec_entries().remove(i)
                        } else {
                            !r && final(self).obj(loc).values.spec_entries() == t.spec_entries()
                        }
                    })),
                    None => true,
                }
            }),
    {
        let mut cur = s;
        loop
            invariant
                self.wf(),
                self.has_scope(cur),
                *self == *old(self),
                self.spec_resolve_scope(s, name@, ctx.spec_case_sensitive())
                    == self.spec_resolve_scope(cur, name@, ctx.spec_case_sensitive()),
            decreases cur.0,
        {
            proof {
                assert(self.spec_wf_scope_at(cur.0 as int));
            }
            let d = self.scopes[cur.0];
            if self.has_property(d.values, name, ctx) {
                return self.delete(d.values, name, ctx);
            }
            match d.parent {
                Some(p) => {
                    cur = p;
                },
                None => {
                    return false;
                },
            }
        }
    }

    /// The locals object of a link.
    pub fn locals_cell(&self, s: ScopeRef) -> (r: Object)
        requires
            self.wf(),
            self.has_scope(s),
        ensures
            r == self.scope(s).values,
            self.has_obj(r),
    {
        proof {
            assert(self.spec_wf_scope_at(s.0 as int));
        }
        self.scopes[s.0].values
    }

    /// The parent link, where there is one.
    pub fn parent_cell(&self, s: ScopeRef) -> (r: Option<ScopeRef>)
        requires
            self.wf(),
            self.has_scope(s),
        ensures
            r == self.scope(s).parent,
            match r {
                Some(p) => self.has_scope(p),
                None => true,
            },
    {
        proof {
            assert(self.spec_wf_scope_at(s.0 as int));
        }
        self.scopes[s.0].parent
    }

    /// The class of a link.
    pub fn scope_class(&self, s: ScopeRef) -> (r: ScopeClass)
        requires
            self.wf(),
            self.has_scope(s),
        ensures
            r == self.scope(s).class,
    {
        self.scopes[s.0].class
    }
}

} // verus!
