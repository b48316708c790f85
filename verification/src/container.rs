//! The container of child display objects: a render list (the order
//! children are drawn in) and a depth list (timeline depth to child),
//! kept as a strictly sorted vector. Children are modelled by a handle
//! carrying what this logic reads of them: a stable identity, the
//! instance name, and the depth the child believes it occupies.
use crate::strings::{name_eq, spec_name_eq};
use vstd::prelude::*;

verus! {

/// A timeline depth.
pub type Depth = i32;

/// The view this container keeps of one child display object. Identity
/// is the `id`; two handles name the same child exactly when their ids
/// are equal.
#[derive(Clone, Debug)]
pub struct DisplayHandle {
    pub id: u64,
    pub depth: Depth,
    pub name: String,
}

impl DisplayHandle {
    pub fn new(id: u64, depth: Depth, name: &str) -> (r: DisplayHandle)
        ensures
            r.id == id,
            r.depth == depth,
            r.name@ == name@,
    {
        DisplayHandle { id, depth, name: name.to_owned() }
    }

    /// An identical handle.
    pub fn duplicate(&self) -> (r: DisplayHandle)
        ensures
            r.id == self.id,
            r.depth == self.depth,
            r.name@ == self.name@,
    {
        DisplayHandle { id: self.id, depth: self.depth, name: self.name.clone() }
    }

    /// Identity comparison.
    pub fn ptr_eq(a: &DisplayHandle, b: &DisplayHandle) -> (r: bool)
        ensures
            r == (a.id == b.id),
    {
        a.id == b.id
    }
}

/// A structure that stores child display objects: the render list in
/// draw order, and the depth list ordered by strictly increasing depth.
pub struct ChildContainer {
    render_list: Vec<DisplayHandle>,
    depth_list: Vec<(Depth, DisplayHandle)>,
}

impl ChildContainer {
    pub closed spec fn spec_render(&self) -> Seq<DisplayHandle> {
        self.render_list@
    }

    pub closed spec fn spec_depths(&self) -> Seq<(Depth, DisplayHandle)> {
        self.depth_list@
    }

    /// The depth list is strictly sorted by depth, and each stored
    /// handle carries the depth it is filed under.
    pub open spec fn wf(&self) -> bool {
        &&& (forall|i: int, j: int|
            0 <= i < j < self.spec_depths().len() ==> (#[trigger] self.spec_depths()[i]).0 < (
            #[trigger] self.spec_depths()[j]).0)
        &&& (forall|i: int|
            0 <= i < self.spec_depths().len() ==> (#[trigger] self.spec_depths()[i]).1.depth
                == self.spec_depths()[i].0)
    }

    /// Index of the depth-list entry at this depth, or -1.
    pub open spec fn spec_depth_index(&self, depth: Depth) -> int {
        Self::spec_depth_index_from(self.spec_depths(), depth, 0)
    }

    pub open spec fn spec_depth_index_from(
        d: Seq<(Depth, DisplayHandle)>,
        depth: Depth,
        i: int,
    ) -> int
        decreases d.len() - i,
    {
        if i < 0 || i >= d.len() {
            -1
        } else if d[i].0 == depth {
            i
        } else {
            Self::spec_depth_index_from(d, depth, i + 1)
        }
    }

    /// Index of the first render-list entry with this identity, or -1.
    pub open spec fn spec_render_index(&self, id: u64) -> int {
        Self::spec_render_index_from(self.spec_render(), id, 0)
    }

    pub open spec fn spec_render_index_from(r: Seq<DisplayHandle>, id: u64, i: int) -> int
        decreases r.len() - i,
    {
        if i < 0 || i >= r.len() {
            -1
        } else if r[i].id == id {
            i
        } else {
            Self::spec_render_index_from(r, id, i + 1)
        }
    }

    pub fn new() -> (r: ChildContainer)
        ensures
            r.wf(),
            r.spec_render().len() == 0,
            r.spec_depths().len() == 0,
    {
        ChildContainer { render_list: Vec::new(), depth_list: Vec::new() }
    }

    /// Finds the depth-list position of a depth, executable.
    fn find_depth(&self, depth: Depth) -> (r: Option<usize>)
        ensures
            match r {
                Some(i) => self.spec_depth_index(depth) == i as int && i < self.spec_depths().len(),
                None => self.spec_depth_index(depth) == -1,
            },
    {
        let mut i: usize = 0;
        while i < self.depth_list.len()
            invariant
                i <= self.spec_depths().len(),
                Self::spec_depth_index_from(self.spec_depths(), depth, 0)
                    == Self::spec_depth_index_from(self.spec_depths(), depth, i as int),
            decreases self.spec_depths().len() - i,
        {
            if self.depth_list[i].0 == depth {
                return Some(i);
            }
            i += 1;
        }
        None
    }

    /// Finds the render-list position of an identity, executable.
    fn find_render(&self, id: u64) -> (r: Option<usize>)
        ensures
            match r {
                Some(i) => self.spec_render_index(id) == i as int && i < self.spec_render().len(),
                None => self.spec_render_index(id) == -1,
            },
    {
        let mut i: usize = 0;
        while i < self.render_list.len()
            invariant
                i <= self.spec_render().len(),
                Self::spec_render_index_from(self.spec_render(), id, 0)
                    == Self::spec_render_index_from(self.spec_render(), id, i as int),
            decreases self.spec_render().len() - i,
        {
            if self.render_list[i].id == id {
                return Some(i);
            }
            i += 1;
        }
        None
    }

    /// Adds a child to the depth list, handing back whichever child
    /// previously occupied that depth.
    pub fn insert_child_into_depth_list(&mut self, depth: Depth, child: DisplayHandle) -> (r:
        Option<DisplayHandle>)
        requires
            old(self).wf(),
            child.depth == depth,
        ensures
            final(self).wf(),
            final(self).spec_render() == old(self).spec_render(),
            ({
                let i = old(self).spec_depth_index(depth);
                if i >= 0 {
                    r is Some && (r matches Some(p) ==> p.id == old(self).spec_depths()[i].1.id
                        && p.depth == old(self).spec_depths()[i].1.depth && p.name@ == old(self).spec_depths()[i].1.name@) && final(self).spec_depths().len() == old(self).spec_depths().len() && (forall|j: int|
                        0 <= j < old(self).spec_depths().len() && j != i
                            ==> #[trigger] final(self).spec_depths()[j] == old(self).spec_depths()[j]) && final(self).spec_depths()[i].0 == depth && final(self).spec_depths()[i].1 == child
                } else {
                    r is None && final(self).spec_depths().len() == old(self).spec_depths().len()
                        + 1 && (exists|at: int|
                        0 <= at <= old(self).spec_depths().len() && final(self).spec_depths()
                            == old(self).spec_depths().insert(at, (depth, child)))
                }
            }),
    {
        // find the sorted position
        let mut at: usize = 0;
        while at < self.depth_list.len() && self.depth_list[at].0 < depth
            invariant
                old(self).wf(),
                *self == *old(self),
                at <= self.spec_depths().len(),
                forall|j: int| 0 <= j < at ==> (#[trigger] self.spec_depths()[j]).0 < depth,
            decreases self.spec_depths().len() - at,
        {
            at += 1;
        }
        proof {
            assert forall|j: int|
                at <= j < self.spec_depths().len() implies (#[trigger] self.spec_depths()[j]).0
                >= depth by {
                if j > at {
                    assert(self.spec_depths()[at as int].0 < self.spec_depths()[j].0);
                }
            };
            crate::container::lemma_depth_index_vs_sorted(self.spec_depths(), depth, at as int);
        }
        if at < self.depth_list.len() && self.depth_list[at].0 == depth {
            let (_, prev) = self.depth_list.remove(at);
            self.depth_list.insert(at, (depth, child));
            proof {
                assert(self.spec_depths() =~= old(self).spec_depths().update(
                    at as int,
                    (depth, child),
                ));
                assert forall|i: int, j: int|
                    0 <= i < j < self.spec_depths().len() implies (
                #[trigger] self.spec_depths()[i]).0 < (#[trigger] self.spec_depths()[j]).0 by {
                    assert(old(self).spec_depths()[i].0 < old(self).spec_depths()[j].0);
                };
            }
            Some(prev)
        } else {
            self.depth_list.insert(at, (depth, child));
            proof {
                old(self).spec_depths().insert_ensures(at as int, (depth, child));
                assert forall|i: int, j: int|
                    0 <= i < j < self.spec_depths().len() implies (
                #[trigger] self.spec_depths()[i]).0 < (#[trigger] self.spec_depths()[j]).0 by {
                    if j < at {
                        assert(old(self).spec_depths()[i].0 < old(self).spec_depths()[j].0);
                    } else if i > at {
                        assert(old(self).spec_depths()[i - 1].0 < old(self).spec_depths()[j - 1].0);
                    } else if i < at && j > at {
                        assert(old(self).spec_depths()[i].0 < old(self).spec_depths()[j - 1].0);
                    } else if i == at && j > at {
                        assert(old(self).spec_depths()[j - 1].0 >= depth);
                        assert(old(self).spec_depths()[j - 1].0 != depth);
                    } else if i < at && j == at {
                        assert(old(self).spec_depths()[i].0 < depth);
                    }
                };
                assert(0 <= at as int <= old(self).spec_depths().len());
            }
            None
        }
    }

    /// Removes a child from the depth list, if the child at its depth
    /// is this very child.
    pub fn remove_child_from_depth_list(&mut self, child: &DisplayHandle) -> (r: bool)
        requires
            old(self).wf(),
        ensures
            final(self).wf(),
            final(self).spec_render() == old(self).spec_render(),
            ({
                let i = old(self).spec_depth_index(child.depth);
                if i >= 0 && old(self).spec_depths()[i].1.id == child.id {
                    r && final(self).spec_depths() == old(self).spec_depths().remove(i)
                } else {
                    !r && final(self).spec_depths() == old(self).spec_depths()
                }
            }),
    {
        match self.find_depth(child.depth) {
            Some(i) => {
                if self.depth_list[i].1.id == child.id {
                    let _ = self.depth_list.remove(i);
                    proof {
                        old(self).spec_depths().remove_ensures(i as int);
                        assert forall|x: int, y: int|
                            0 <= x < y < self.spec_depths().len() implies (
                        #[trigger] self.spec_depths()[x]).0 < (
                        #[trigger] self.spec_depths()[y]).0 by {
                            let ox: int = if x < i as int {
                                x
                            } else {
                                x + 1
                            };
                            let oy: int = if y < i as int {
                                y
                            } else {
                                y + 1
                            };
                            assert(old(self).spec_depths()[ox].0 < old(self).spec_depths()[oy].0);
                        };
                    }
                    true
                } else {
                    false
                }
            },
            None => false,
        }
    }

    /// Removes a child from the render list; reports whether any
    /// alteration was made.
    pub fn remove_child_from_render_list(&mut self, child: &DisplayHandle) -> (r: bool)
        requires
            old(self).wf(),
        ensures
            final(self).wf(),
            final(self).spec_depths() == old(self).spec_depths(),
            ({
                let i = old(self).spec_render_index(child.id);
                if i >= 0 {
                    r && final(self).spec_render() == old(self).spec_render().remove(i)
                } else {
                    !r && final(self).spec_render() == old(self).spec_render()
                }
            }),
    {
        match self.find_render(child.id) {
            Some(i) => {
                let _ = self.render_list.remove(i);
                proof {
                    assert(self.spec_depths() =~= old(self).spec_depths());
                    assert forall|x: int, y: int|
                        0 <= x < y < self.spec_depths().len() implies (
                    #[trigger] self.spec_depths()[x]).0 < (#[trigger] self.spec_depths()[y]).0 by {
                        assert(old(self).spec_depths()[x].0 < old(self).spec_depths()[y].0);
                    };
                    assert forall|x: int|
                        0 <= x < self.spec_depths().len() implies (
                    #[trigger] self.spec_depths()[x]).1.depth == self.spec_depths()[x].0 by {
                        assert(old(self).spec_depths()[x].1.depth == old(self).spec_depths()[x].0);
                    };
                }
                true
            },
            None => false,
        }
    }

    /// The lowest depth in use, if any child is on the depth list.
    pub fn lowest_depth(&self) -> (r: Option<Depth>)
        requires
            self.wf(),
        ensures
            self.spec_depths().len() == 0 ==> r is None,
            self.spec_depths().len() > 0 ==> r == Some(self.spec_depths()[0].0),
    {
        if self.depth_list.len() == 0 {
            None
        } else {
            Some(self.depth_list[0].0)
        }
    }

    /// The highest depth in use, if any child is on the depth list.
    pub fn highest_depth(&self) -> (r: Option<Depth>)
        requires
            self.wf(),
        ensures
            self.spec_depths().len() == 0 ==> r is None,
            self.spec_depths().len() > 0 ==> r == Some(
                self.spec_depths()[self.spec_depths().len() - 1].0,
            ),
    {
        if self.depth_list.len() == 0 {
            None
        } else {
            Some(self.depth_list[self.depth_list.len() - 1].0)
        }
    }

    /// Whether the render list is empty.
    pub fn is_empty(&self) -> (r: bool)
        ensures
            r == (self.spec_render().len() == 0),
    {
        self.render_list.is_empty()
    }

    /// The child at a given depth.
    pub fn get_depth(&self, depth: Depth) -> (r: Option<DisplayHandle>)
        requires
            self.wf(),
        ensures
            ({
                let i = self.spec_depth_index(depth);
                if i >= 0 {
                    r is Some && (r matches Some(c) ==> c.id == self.spec_depths()[i].1.id
                        && c.depth == self.spec_depths()[i].1.depth && c.name@
                        == self.spec_depths()[i].1.name@)
                } else {
                    r is None
                }
            }),
    {
        match self.find_depth(depth) {
            Some(i) => Some(self.depth_list[i].1.duplicate()),
            None => None,
        }
    }

    /// The first child in depth order whose name matches; children off
    /// the depth list are not reachable this way.
    pub fn get_name(&self, name: &str, case_sensitive: bool) -> (r: Option<DisplayHandle>)
        requires
            self.wf(),
        ensures
            ({
                let i = Self::spec_name_index_from(self.spec_depths(), name@, case_sensitive, 0);
                if i >= 0 {
                    r is Some && (r matches Some(c) ==> c.id == self.spec_depths()[i].1.id
                        && c.name@ == self.spec_depths()[i].1.name@)
                } else {
                    r is None
                }
            }),
    {
        let mut i: usize = 0;
        while i < self.depth_list.len()
            invariant
                i <= self.spec_depths().len(),
                Self::spec_name_index_from(self.spec_depths(), name@, case_sensitive, 0)
                    == Self::spec_name_index_from(
                    self.spec_depths(),
                    name@,
                    case_sensitive,
                    i as int,
                ),
            decreases self.spec_depths().len() - i,
        {
            if name_eq(self.depth_list[i].1.name.as_str(), name, case_sensitive) {
                return Some(self.depth_list[i].1.duplicate());
            }
            i += 1;
        }
        None
    }

    /// Index of the first depth-list entry whose child's name matches.
    pub open spec fn spec_name_index_from(
        d: Seq<(Depth, DisplayHandle)>,
        name: Seq<char>,
        case_sensitive: bool,
        i: int,
    ) -> int
        decreases d.len() - i,
    {
        if i < 0 || i >= d.len() {
            -1
        } else if spec_name_eq(d[i].1.name@, name, case_sensitive) {
            i
        } else {
            Self::spec_name_index_from(d, name, case_sensitive, i + 1)
        }
    }

    /// The child at a render list position.
    pub fn get_id(&self, id: usize) -> (r: Option<DisplayHandle>)
        ensures
            id < self.spec_render().len() ==> r is Some && (r matches Some(c) ==> c.id
                == self.spec_render()[id as int].id && c.depth == self.spec_render()[id as int].depth
                && c.name@ == self.spec_render()[id as int].name@),
            id >= self.spec_render().len() ==> r is None,
    {
        if id < self.render_list.len() {
            Some(self.render_list[id].duplicate())
        } else {
            None
        }
    }

    /// Replaces the child at a render list position.
    pub fn replace_id(&mut self, id: usize, child: DisplayHandle)
        requires
            id < old(self).spec_render().len(),
        ensures
            final(self).spec_render() == old(self).spec_render().update(id as int, child),
            final(self).spec_depths() == old(self).spec_depths(),
    {
        let _ = self.render_list.remove(id);
        self.render_list.insert(id, child);
        proof {
            assert(self.spec_render() =~= old(self).spec_render().update(id as int, child));
        }
    }

    /// Inserts a child at a render list position.
    pub fn insert_id(&mut self, id: usize, child: DisplayHandle)
        requires
            id <= old(self).spec_render().len(),
        ensures
            final(self).spec_render() == old(self).spec_render().insert(id as int, child),
            final(self).spec_depths() == old(self).spec_depths(),
    {
        self.render_list.insert(id, child);
    }

    /// Pushes a child onto the end of the render list.
    pub fn push_id(&mut self, child: DisplayHandle)
        ensures
            final(self).spec_render() == old(self).spec_render().push(child),
            final(self).spec_depths() == old(self).spec_depths(),
    {
        self.render_list.push(child);
    }

    /// The number of children on the render list.
    pub fn num_children(&self) -> (r: usize)
        ensures
            r == self.spec_render().len(),
    {
        self.render_list.len()
    }

    /// Inserts a child at a render position - or, if it is already on
    /// the render list, moves it there, shifting the children in
    /// between. Reports whether the child was actually inserted.
    pub fn insert_at_id(&mut self, child: DisplayHandle, id: usize) -> (r: bool)
        requires
            id <= old(self).spec_render().len(),
        ensures
            final(self).spec_depths() == old(self).spec_depths(),
            ({
                let old_id = old(self).spec_render_index(child.id);
                if old_id >= 0 {
                    let moved = old(self).spec_render().remove(old_id);
                    let at: int = if id <= moved.len() {
                        id as int
                    } else {
                        moved.len() as int
                    };
                    !r && final(self).spec_render() == moved.insert(
                        at,
                        old(self).spec_render()[old_id],
                    )
                } else {
                    r && final(self).spec_render() == old(self).spec_render().insert(
                        id as int,
                        child,
                    )
                }
            }),
    {
        match self.find_render(child.id) {
            Some(old_id) => {
                let moved = self.render_list.remove(old_id);
                let at = if id <= self.render_list.len() {
                    id
                } else {
                    self.render_list.len()
                };
                self.render_list.insert(at, moved);
                false
            },
            None => {
                self.render_list.insert(id, child);
                true
            },
        }
    }

    /// Swaps two children in the render list.
    pub fn swap_at_id(&mut self, id1: usize, id2: usize)
        requires
            id1 < old(self).spec_render().len(),
            id2 < old(self).spec_render().len(),
        ensures
            final(self).spec_depths() == old(self).spec_depths(),
            final(self).spec_render().len() == old(self).spec_render().len(),
            forall|j: int|
                0 <= j < old(self).spec_render().len() && j != id1 as int && j != id2 as int
                    ==> #[trigger] final(self).spec_render()[j] == old(self).spec_render()[j],
            final(self).spec_render()[id1 as int].id == old(self).spec_render()[id2 as int].id
                && final(self).spec_render()[id1 as int].depth == old(self).spec_render()[id2 as int].depth && final(self).spec_render()[id1 as int].name@ == old(self).spec_render()[id2 as int].name@,
            final(self).spec_render()[id2 as int].id == old(self).spec_render()[id1 as int].id
                && final(self).spec_render()[id2 as int].depth == old(self).spec_render()[id1 as int].depth && final(self).spec_render()[id2 as int].name@ == old(self).spec_render()[id1 as int].name@,
    {
        if id1 == id2 {
            return ;
        }
        let a = self.render_list[id1].duplicate();
        let b = self.render_list[id2].duplicate();
        let _ = self.render_list.remove(id1);
        self.render_list.insert(id1, b);
        let ghost mid = self.spec_render();
        let _ = self.render_list.remove(id2);
        self.render_list.insert(id2, a);
        proof {
            assert(mid =~= old(self).spec_render().update(
                id1 as int,
                mid[id1 as int],
            ));
            assert(self.spec_render() =~= mid.update(id2 as int, self.spec_render()[id2 as int]));
        }
    }

    /// Removes the depth-list entry at a depth, whatever child holds it.
    fn remove_depth_entry(&mut self, depth: Depth) -> (r: Option<DisplayHandle>)
        requires
            old(self).wf(),
        ensures
            final(self).wf(),
            final(self).spec_render() == old(self).spec_render(),
            ({
                let i = old(self).spec_depth_index(depth);
                if i >= 0 {
                    r is Some && final(self).spec_depths() == old(self).spec_depths().remove(i)
                } else {
                    r is None && final(self).spec_depths() == old(self).spec_depths()
                }
            }),
    {
        match self.find_depth(depth) {
            Some(i) => {
                let (_, prev) = self.depth_list.remove(i);
                proof {
                    old(self).spec_depths().remove_ensures(i as int);
                    assert forall|x: int, y: int|
                        0 <= x < y < self.spec_depths().len() implies (
                    #[trigger] self.spec_depths()[x]).0 < (#[trigger] self.spec_depths()[y]).0 by {
                        let ox: int = if x < i as int {
                            x
                        } else {
                            x + 1
                        };
                        let oy: int = if y < i as int {
                            y
                        } else {
                            y + 1
                        };
                        assert(old(self).spec_depths()[ox].0 < old(self).spec_depths()[oy].0);
                    };
                }
                Some(prev)
            },
            None => None,
        }
    }

    /// Moves an already-inserted child to a new depth. A child already
    /// at the target depth moves to the vacated depth and the two swap
    /// render positions; into an empty target depth the child is
    /// re-inserted on the render list just after the nearest child
    /// below it in depth order, or at the front where none is below.
    pub fn swap_at_depth(&mut self, child: DisplayHandle, depth: Depth) -> (r: bool)
        requires
            old(self).wf(),
            child.depth != depth,
            ({
                let i = old(self).spec_depth_index(child.depth);
                i >= 0 && old(self).spec_depths()[i].1.id == child.id
            }),
            old(self).spec_render_index(child.id) >= 0,
        ensures
            final(self).wf(),
            final(self).spec_render().len() == old(self).spec_render().len(),
            ({
                let di = final(self).spec_depth_index(depth);
                di >= 0 && final(self).spec_depths()[di].1.id == child.id && final(self).spec_depths()[di].1.depth == depth
            }),
            ({
                let pi = old(self).spec_depth_index(depth);
                let ni = final(self).spec_depth_index(child.depth);
                if pi >= 0 {
                    ni >= 0 && final(self).spec_depths()[ni].1.id == old(self).spec_depths()[pi].1.id
                } else {
                    ni == -1
                }
            }),
    {
        let prev_depth = child.depth;
        let ghost qi = old(self).spec_depth_index(prev_depth);
        let ghost pi = old(self).spec_depth_index(depth);
        proof {
            lemma_depth_index_range(old(self).spec_depths(), prev_depth, 0);
            lemma_depth_index_range(old(self).spec_depths(), depth, 0);
        }
        let mut moved = child.duplicate();
        moved.depth = depth;
        let previous = self.insert_child_into_depth_list(depth, moved);
        match previous {
            Some(prev_child) => {
                // the displaced child takes the vacated depth
                let mut back = prev_child.duplicate();
                back.depth = prev_depth;
                let ghost mid = *self;
                proof {
                    // the vacated depth still names the child's old
                    // entry after the replacement at the target depth
                    assert(mid.spec_depths()[qi] == old(self).spec_depths()[qi]);
                    lemma_index_of_present(mid.spec_depths(), prev_depth, qi);
                }
                let _ = self.insert_child_into_depth_list(prev_depth, back);
                proof {
                    assert(self.spec_depths()[qi].0 == prev_depth && self.spec_depths()[qi].1
                        == back);
                    assert(self.spec_depths()[pi] == mid.spec_depths()[pi]);
                    lemma_index_of_present(self.spec_depths(), depth, pi);
                    lemma_index_of_present(self.spec_depths(), prev_depth, qi);
                }
                // and the two swap render positions, where both are
                // rendered
                let p1 = self.find_render(prev_child.id);
                let p2 = self.find_render(child.id);
                match (p1, p2) {
                    (Some(a), Some(b)) => {
                        self.swap_at_id(a, b);
                    },
                    _ => {},
                }
                true
            },
            None => {
                // vacate the old depth and re-place the child in render
                // order near its new depth
                let ghost mid = *self;
                let ghost at = choose|at: int|
                    0 <= at <= old(self).spec_depths().len() && mid.spec_depths() == old(self).spec_depths().insert(at, (depth, moved));
                proof {
                    old(self).spec_depths().insert_ensures(at, (depth, moved));
                    // the old entry of the child sits at qi, shifted by
                    // the insertion where it came before it
                    assert(mid.spec_depths()[if qi < at {
                        qi
                    } else {
                        qi + 1
                    }] == old(self).spec_depths()[qi]);
                    lemma_index_of_present(
                        mid.spec_depths(),
                        prev_depth,
                        if qi < at {
                            qi
                        } else {
                            qi + 1
                        },
                    );
                }
                let ghost mqi: int = if qi < at {
                    qi
                } else {
                    qi + 1
                };
                let _ = self.remove_depth_entry(prev_depth);
                proof {
                    mid.spec_depths().remove_ensures(mqi);
                    // the target depth's entry survives the removal
                    let ai: int = if at < mqi {
                        at
                    } else {
                        at - 1
                    };
                    assert(mid.spec_depths()[at] == (depth, moved));
                    assert(self.spec_depths()[ai] == mid.spec_depths()[at]);
                    lemma_index_of_present(self.spec_depths(), depth, ai);
                    // and nothing now carries the vacated depth
                    assert forall|j: int|
                        0 <= j < self.spec_depths().len() implies (
                    #[trigger] self.spec_depths()[j]).0 != prev_depth by {
                        let oj: int = if j < mqi {
                            j
                        } else {
                            j + 1
                        };
                        assert(self.spec_depths()[j] == mid.spec_depths()[oj]);
                        if mid.spec_depths()[oj].0 == prev_depth {
                            if oj < mqi {
                                assert(mid.spec_depths()[oj].0 < mid.spec_depths()[mqi].0);
                            } else {
                                assert(mid.spec_depths()[mqi].0 < mid.spec_depths()[oj].0);
                            }
                        }
                    };
                    lemma_index_of_absent(self.spec_depths(), prev_depth);
                }
                match self.find_render(child.id) {
                    Some(old_pos) => {
                        let taken = self.render_list.remove(old_pos);
                        // the nearest occupied depth strictly below the
                        // target
                        let mut below: Option<u64> = None;
                        let mut i: usize = 0;
                        while i < self.depth_list.len()
                            invariant
                                i <= self.spec_depths().len(),
                            decreases self.spec_depths().len() - i,
                        {
                            if self.depth_list[i].0 < depth {
                                below = Some(self.depth_list[i].1.id);
                            }
                            i += 1;
                        }
                        let ghost pre_insert = self.spec_render();
                        match below {
                            Some(below_id) => {
                                match self.find_render(below_id) {
                                    Some(pos) => {
                                        if pos < self.render_list.len() {
                                            self.render_list.insert(pos + 1, taken);
                                        } else {
                                            self.render_list.insert(0, taken);
                                        }
                                    },
                                    None => {
                                        self.render_list.insert(0, taken);
                                    },
                                }
                            },
                            None => {
                                self.render_list.insert(0, taken);
                            },
                        }
                        proof {
                            assert(self.spec_render().len() == pre_insert.len() + 1);
                        }
                    },
                    None => {},
                }
                false
            },
        }
    }

    /// Removes every child from both lists.
    pub fn clear(&mut self)
        ensures
            final(self).wf(),
            final(self).spec_render().len() == 0,
            final(self).spec_depths().len() == 0,
    {
        self.render_list.clear();
        self.depth_list.clear();
    }

    /// The children with their depths, in depth order.
    pub fn iter_children_by_depth(&self) -> (r: Vec<(Depth, DisplayHandle)>)
        ensures
            r@.len() == self.spec_depths().len(),
            forall|i: int|
                0 <= i < r@.len() ==> (#[trigger] r@[i]).0 == self.spec_depths()[i].0 && r@[i].1.id
                    == self.spec_depths()[i].1.id && r@[i].1.depth == self.spec_depths()[i].1.depth
                    && r@[i].1.name@ == self.spec_depths()[i].1.name@,
    {
        let mut out: Vec<(Depth, DisplayHandle)> = Vec::new();
        let mut i: usize = 0;
        while i < self.depth_list.len()
            invariant
                i <= self.spec_depths().len(),
                out@.len() == i,
                forall|j: int|
                    0 <= j < i ==> (#[trigger] out@[j]).0 == self.spec_depths()[j].0 && out@[j].1.id
                        == self.spec_depths()[j].1.id && out@[j].1.depth
                        == self.spec_depths()[j].1.depth && out@[j].1.name@
                        == self.spec_depths()[j].1.name@,
            decreases self.spec_depths().len() - i,
        {
            let d = self.depth_list[i].0;
            out.push((d, self.depth_list[i].1.duplicate()));
            i += 1;
        }
        out
    }

    /// The children with their depths within `[lo, hi)`, in depth
    /// order.
    pub fn iter_depth_range(&self, lo: Depth, hi: Depth) -> (r: Vec<(Depth, DisplayHandle)>)
        ensures
            forall|i: int|
                0 <= i < r@.len() ==> lo <= (#[trigger] r@[i]).0 < hi,
    {
        let mut out: Vec<(Depth, DisplayHandle)> = Vec::new();
        let mut i: usize = 0;
        while i < self.depth_list.len()
            invariant
                i <= self.spec_depths().len(),
                forall|j: int| 0 <= j < out@.len() ==> lo <= (#[trigger] out@[j]).0 < hi,
            decreases self.spec_depths().len() - i,
        {
            let d = self.depth_list[i].0;
            if lo <= d && d < hi {
                out.push((d, self.depth_list[i].1.duplicate()));
            }
            i += 1;
        }
        out
    }

    /// The children in render order.
    pub fn iter_render_list(&self) -> (r: Vec<DisplayHandle>)
        ensures
            r@.len() == self.spec_render().len(),
            forall|i: int|
                0 <= i < r@.len() ==> (#[trigger] r@[i]).id == self.spec_render()[i].id
                    && r@[i].depth == self.spec_render()[i].depth && r@[i].name@
                    == self.spec_render()[i].name@,
    {
        let mut out: Vec<DisplayHandle> = Vec::new();
        let mut i: usize = 0;
        while i < self.render_list.len()
            invariant
                i <= self.spec_render().len(),
                out@.len() == i,
                forall|j: int|
                    0 <= j < i ==> (#[trigger] out@[j]).id == self.spec_render()[j].id
                        && out@[j].depth == self.spec_render()[j].depth && out@[j].name@
                        == self.spec_render()[j].name@,
            decreases self.spec_render().len() - i,
        {
            out.push(self.render_list[i].duplicate());
            i += 1;
        }
        out
    }

    /// Removes the render-list children within `[lo, hi)` of the list
    /// and hands them back in order.
    pub fn drain_render_range(&mut self, lo: usize, hi: usize) -> (r: Vec<DisplayHandle>)
        requires
            lo <= hi,
            hi <= old(self).spec_render().len(),
        ensures
            final(self).spec_depths() == old(self).spec_depths(),
            r@ == old(self).spec_render().subrange(lo as int, hi as int),
            final(self).spec_render() == old(self).spec_render().subrange(0, lo as int) + old(self).spec_render().subrange(hi as int, old(self).spec_render().len() as int),
    {
        let mut out: Vec<DisplayHandle> = Vec::new();
        let mut k: usize = lo;
        while k < hi
            invariant
                lo <= k <= hi,
                hi <= old(self).spec_render().len(),
                out@ == old(self).spec_render().subrange(lo as int, k as int),
                self.spec_render() == old(self).spec_render().subrange(0, lo as int) + old(self).spec_render().subrange(k as int, old(self).spec_render().len() as int),
                self.spec_depths() == old(self).spec_depths(),
            decreases hi - k,
        {
            let ghost pre_out = out@;
            let ghost pre_r = self.spec_render();
            let c = self.render_list.remove(lo);
            out.push(c);
            proof {
                assert(out@ =~= old(self).spec_render().subrange(lo as int, k + 1));
                assert(self.spec_render() =~= old(self).spec_render().subrange(0, lo as int) + old(self).spec_render().subrange(k + 1, old(self).spec_render().len() as int));
            }
            k += 1;
        }
        out
    }
}

/// In a strictly sorted depth list, the linear scan's stop position
/// tells exactly whether and where a depth occurs.
proof fn lemma_depth_index_vs_sorted(d: Seq<(Depth, DisplayHandle)>, depth: Depth, at: int)
    requires
        0 <= at <= d.len(),
        forall|x: int, y: int| 0 <= x < y < d.len() ==> (#[trigger] d[x]).0 < (#[trigger] d[y]).0,
        forall|j: int| 0 <= j < at ==> (#[trigger] d[j]).0 < depth,
        forall|j: int| at <= j < d.len() ==> (#[trigger] d[j]).0 >= depth,
    ensures
        at < d.len() && d[at].0 == depth ==> ChildContainer::spec_depth_index_from(d, depth, 0)
            == at,
        !(at < d.len() && d[at].0 == depth) ==> ChildContainer::spec_depth_index_from(d, depth, 0)
            == -1,
{
    lemma_depth_index_scan(d, depth, at, 0);
}

proof fn lemma_depth_index_scan(d: Seq<(Depth, DisplayHandle)>, depth: Depth, at: int, i: int)
    requires
        0 <= i <= d.len(),
        0 <= at <= d.len(),
        forall|x: int, y: int| 0 <= x < y < d.len() ==> (#[trigger] d[x]).0 < (#[trigger] d[y]).0,
        forall|j: int| 0 <= j < at ==> (#[trigger] d[j]).0 < depth,
        forall|j: int| at <= j < d.len() ==> (#[trigger] d[j]).0 >= depth,
        i <= at,
    ensures
        at < d.len() && d[at].0 == depth ==> ChildContainer::spec_depth_index_from(d, depth, i)
            == at,
        !(at < d.len() && d[at].0 == depth) ==> ChildContainer::spec_depth_index_from(d, depth, i)
            == -1,
    decreases d.len() - i,
{
    if i < d.len() {
        if d[i].0 == depth {
            assert(i == at);
        } else {
            if i == at {
                // everything past a non-matching stop is strictly above
                assert forall|j: int|
                    i + 1 <= j < d.len() implies (#[trigger] d[j]).0 != depth by {
                    assert(d[at].0 < d[j].0);
                };
                lemma_depth_index_all_miss(d, depth, i + 1);
            } else {
                lemma_depth_index_scan(d, depth, at, i + 1);
            }
        }
    }
}

proof fn lemma_depth_index_all_miss(d: Seq<(Depth, DisplayHandle)>, depth: Depth, i: int)
    requires
        0 <= i <= d.len(),
        forall|j: int| i <= j < d.len() ==> (#[trigger] d[j]).0 != depth,
    ensures
        ChildContainer::spec_depth_index_from(d, depth, i) == -1,
    decreases d.len() - i,
{
    if i < d.len() {
        lemma_depth_index_all_miss(d, depth, i + 1);
    }
}

/// In a strictly sorted depth list a present key is found exactly at
/// its position.
proof fn lemma_index_of_present(d: Seq<(Depth, DisplayHandle)>, depth: Depth, i: int)
    requires
        forall|x: int, y: int| 0 <= x < y < d.len() ==> (#[trigger] d[x]).0 < (#[trigger] d[y]).0,
        0 <= i < d.len(),
        d[i].0 == depth,
    ensures
        ChildContainer::spec_depth_index_from(d, depth, 0) == i,
{
    assert forall|j: int| 0 <= j < i implies (#[trigger] d[j]).0 < depth by {
        assert(d[j].0 < d[i].0);
    };
    assert forall|j: int| i <= j < d.len() implies (#[trigger] d[j]).0 >= depth by {
        if j > i {
            assert(d[i].0 < d[j].0);
        }
    };
    lemma_depth_index_scan(d, depth, i, 0);
}

/// A found depth index lies in range and names a matching entry.
proof fn lemma_depth_index_range(d: Seq<(Depth, DisplayHandle)>, depth: Depth, i: int)
    requires
        0 <= i <= d.len(),
    ensures
        ({
            let r = ChildContainer::spec_depth_index_from(d, depth, i);
            r == -1 || (i <= r < d.len() && d[r].0 == depth)
        }),
    decreases d.len() - i,
{
    if i < d.len() && d[i].0 != depth {
        lemma_depth_index_range(d, depth, i + 1);
    }
}

/// A key no entry carries is not found.
proof fn lemma_index_of_absent(d: Seq<(Depth, DisplayHandle)>, depth: Depth)
    requires
        forall|j: int| 0 <= j < d.len() ==> (#[trigger] d[j]).0 != depth,
    ensures
        ChildContainer::spec_depth_index_from(d, depth, 0) == -1,
{
    lemma_depth_index_all_miss(d, depth, 0);
}


/// Walks a snapshot of a container's render list, from either end.
pub struct RenderIter {
    items: Vec<DisplayHandle>,
    i: usize,
    neg_i: usize,
}

impl RenderIter {
    pub closed spec fn spec_items(&self) -> Seq<DisplayHandle> {
        self.items@
    }

    pub closed spec fn spec_front(&self) -> int {
        self.i as int
    }

    pub closed spec fn spec_back(&self) -> int {
        self.neg_i as int
    }

    pub open spec fn wf(&self) -> bool {
        0 <= self.spec_front() <= self.spec_back() <= self.spec_items().len()
    }

    /// A fresh walk over the container's current render order.
    pub fn from_container(src: &ChildContainer) -> (r: RenderIter)
        ensures
            r.wf(),
            r.spec_front() == 0,
            r.spec_back() == src.spec_render().len(),
            r.spec_items().len() == src.spec_render().len(),
            forall|j: int|
                0 <= j < src.spec_render().len() ==> (#[trigger] r.spec_items()[j]).id
                    == src.spec_render()[j].id,
    {
        let items = src.iter_render_list();
        let n = items.len();
        RenderIter { items, i: 0, neg_i: n }
    }

    /// The next child from the front, until the ends meet.
    pub fn next(&mut self) -> (r: Option<DisplayHandle>)
        requires
            old(self).wf(),
        ensures
            final(self).wf(),
            final(self).spec_items() == old(self).spec_items(),
            final(self).spec_back() == old(self).spec_back(),
            old(self).spec_front() == old(self).spec_back() ==> r is None && final(self).spec_front() == old(self).spec_front(),
            old(self).spec_front() < old(self).spec_back() ==> final(self).spec_front() == old(self).spec_front() + 1 && r is Some && (r matches Some(c) ==> c.id == old(self).spec_items()[old(self).spec_front()].id),
    {
        if self.i == self.neg_i {
            return None;
        }
        let c = self.items[self.i].duplicate();
        self.i += 1;
        Some(c)
    }

    /// The next child from the back, until the ends meet.
    pub fn next_back(&mut self) -> (r: Option<DisplayHandle>)
        requires
            old(self).wf(),
        ensures
            final(self).wf(),
            final(self).spec_items() == old(self).spec_items(),
            final(self).spec_front() == old(self).spec_front(),
            old(self).spec_front() == old(self).spec_back() ==> r is None && final(self).spec_back() == old(self).spec_back(),
            old(self).spec_front() < old(self).spec_back() ==> final(self).spec_back() == old(self).spec_back() - 1 && r is Some && (r matches Some(c) ==> c.id == old(self).spec_items()[old(self).spec_back() - 1].id),
    {
        if self.i == self.neg_i {
            return None;
        }
        let c = self.items[self.neg_i - 1].duplicate();
        self.neg_i -= 1;
        Some(c)
    }
}

/// Walks a snapshot of a container's depth list, highest depth first.
pub struct DepthIter {
    items: Vec<(Depth, DisplayHandle)>,
    remaining: usize,
}

impl DepthIter {
    pub closed spec fn spec_items(&self) -> Seq<(Depth, DisplayHandle)> {
        self.items@
    }

    pub closed spec fn spec_remaining(&self) -> int {
        self.remaining as int
    }

    pub open spec fn wf(&self) -> bool {
        0 <= self.spec_remaining() <= self.spec_items().len()
    }

    /// A fresh walk over the container's current depth order, from the
    /// highest occupied depth downward.
    pub fn from_container(src: &ChildContainer) -> (r: DepthIter)
        ensures
            r.wf(),
            r.spec_remaining() == src.spec_depths().len(),
            r.spec_items().len() == src.spec_depths().len(),
            forall|j: int|
                0 <= j < src.spec_depths().len() ==> (#[trigger] r.spec_items()[j]).0
                    == src.spec_depths()[j].0 && r.spec_items()[j].1.id
                    == src.spec_depths()[j].1.id,
    {
        let items = src.iter_children_by_depth();
        let n = items.len();
        DepthIter { items, remaining: n }
    }

    /// The next child downward in depth, with its depth.
    pub fn next(&mut self) -> (r: Option<(Depth, DisplayHandle)>)
        requires
            old(self).wf(),
        ensures
            final(self).wf(),
            final(self).spec_items() == old(self).spec_items(),
            old(self).spec_remaining() == 0 ==> r is None && final(self).spec_remaining() == 0,
            old(self).spec_remaining() > 0 ==> final(self).spec_remaining() == old(self).spec_remaining() - 1 && r is Some && (r matches Some(e) ==> e.0 == old(self).spec_items()[old(self).spec_remaining() - 1].0 && e.1.id == old(self).spec_items()[old(self).spec_remaining() - 1].1.id),
    {
        if self.remaining == 0 {
            return None;
        }
        let (d, c) = (self.items[self.remaining - 1].0, self.items[self.remaining - 1].1.duplicate());
        self.remaining -= 1;
        Some((d, c))
    }
}

} // verus!
