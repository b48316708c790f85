//! The ordered associative table behind every object: names to entries,
//! insertion order preserved for enumeration, lookup parameterised by
//! case sensitivity. A case-insensitive lookup finds the first entry
//! whose name matches up to ASCII case; insertion through a matching
//! entry keeps that entry's name and position.
use crate::strings::{name_eq, spec_name_eq};
use vstd::prelude::*;

verus! {

/// First index at or after `i` whose key matches `name` under the given
/// case sensitivity, or -1.
pub open spec fn spec_find_from<V>(
    entries: Seq<(String, V)>,
    name: Seq<char>,
    case_sensitive: bool,
    i: int,
) -> int
    decreases entries.len() - i,
{
    if i < 0 || i >= entries.len() {
        -1
    } else if spec_name_eq(entries[i].0@, name, case_sensitive) {
        i
    } else {
        spec_find_from(entries, name, case_sensitive, i + 1)
    }
}

/// How a write of `name` to `v` changes a table: through the first
/// matching entry, whose name and position are kept, or appended.
pub open spec fn spec_inserted<V>(
    pre: PropertyMap<V>,
    post: PropertyMap<V>,
    name: Seq<char>,
    case_sensitive: bool,
    v: V,
) -> bool {
    let i = pre.spec_find(name, case_sensitive);
    if i >= 0 {
        post.spec_entries() == pre.spec_entries().update(i, (pre.spec_entries()[i].0, v))
    } else {
        &&& post.spec_entries().len() == pre.spec_len() + 1
        &&& post.spec_entries().subrange(0, pre.spec_len() as int) == pre.spec_entries()
        &&& post.spec_key(pre.spec_len() as int) == name
        &&& post.spec_val(pre.spec_len() as int) == v
    }
}

/// A found index lies in range, names a matching entry, and nothing
/// before it matches.
pub proof fn lemma_find_from_range<V>(
    entries: Seq<(String, V)>,
    name: Seq<char>,
    case_sensitive: bool,
    i: int,
)
    requires
        0 <= i <= entries.len(),
    ensures
        ({
            let r = spec_find_from(entries, name, case_sensitive, i);
            r == -1 || (i <= r < entries.len() && spec_name_eq(entries[r].0@, name, case_sensitive)
                && (forall|j: int|
                i <= j < r ==> !spec_name_eq((#[trigger] entries[j]).0@, name, case_sensitive)))
        }),
    decreases entries.len() - i,
{
    if i < entries.len() && !spec_name_eq(entries[i].0@, name, case_sensitive) {
        lemma_find_from_range(entries, name, case_sensitive, i + 1);
    }
}

/// Lookup only reads the keys: two tables with the same key texts
/// resolve every name alike.
proof fn lemma_find_from_congruence<V>(
    e1: Seq<(String, V)>,
    e2: Seq<(String, V)>,
    name: Seq<char>,
    case_sensitive: bool,
    i: int,
)
    requires
        e1.len() == e2.len(),
        forall|j: int| 0 <= j < e1.len() ==> (#[trigger] e1[j]).0@ == e2[j].0@,
    ensures
        spec_find_from(e1, name, case_sensitive, i) == spec_find_from(e2, name, case_sensitive, i),
    decreases e1.len() - i,
{
    if 0 <= i < e1.len() {
        lemma_find_from_congruence(e1, e2, name, case_sensitive, i + 1);
    }
}

/// A name not found in a table is found at the end once an entry of
/// that name is appended.
proof fn lemma_find_from_extend<V>(
    e: Seq<(String, V)>,
    ext: Seq<(String, V)>,
    name: Seq<char>,
    case_sensitive: bool,
    i: int,
)
    requires
        0 <= i <= e.len(),
        ext.len() == e.len() + 1,
        forall|j: int| 0 <= j < e.len() ==> #[trigger] ext[j] == e[j],
        ext[e.len() as int].0@ == name,
        spec_find_from(e, name, case_sensitive, i) == -1,
    ensures
        spec_find_from(ext, name, case_sensitive, i) == e.len(),
    decreases e.len() - i,
{
    if i < e.len() {
        lemma_find_from_extend(e, ext, name, case_sensitive, i + 1);
    }
}

/// A write leaves every other entry untouched: the table keeps its
/// length (or grows by the appended entry), and every slot but the
/// written one is as it was.
pub proof fn lemma_inserted_frame<V>(
    pre: PropertyMap<V>,
    post: PropertyMap<V>,
    name: Seq<char>,
    case_sensitive: bool,
    v: V,
)
    requires
        spec_inserted(pre, post, name, case_sensitive, v),
    ensures
        ({
            let i = pre.spec_find(name, case_sensitive);
            let t: int = if i >= 0 {
                i
            } else {
                pre.spec_len() as int
            };
            &&& post.spec_len() == if i >= 0 {
                pre.spec_len()
            } else {
                pre.spec_len() + 1
            }
            &&& forall|j: int|
                0 <= j < post.spec_len() && j != t ==> #[trigger] post.spec_entries()[j]
                    == pre.spec_entries()[j]
            &&& post.spec_val(t) == v
            &&& forall|j: int|
                0 <= j < post.spec_len() ==> #[trigger] post.spec_key(j) == (if j == t && i < 0 {
                    name
                } else {
                    pre.spec_key(j)
                })
        }),
{
    let i = pre.spec_find(name, case_sensitive);
    lemma_find_from_range(pre.spec_entries(), name, case_sensitive, 0);
    if i >= 0 {
        let pair = (pre.spec_entries()[i].0, v);
        assert(post.spec_entries() == pre.spec_entries().update(i, pair));
        assert(post.spec_entries().len() == pre.spec_entries().len());
        assert forall|j: int| 0 <= j < post.spec_len() && j != i implies #[trigger] post.spec_entries()[j]
            == pre.spec_entries()[j] by {
            assert(pre.spec_entries().update(i, pair)[j] == pre.spec_entries()[j]);
        };
    } else {
        assert forall|j: int| 0 <= j < pre.spec_len() implies #[trigger] post.spec_entries()[j]
            == pre.spec_entries()[j] by {
            assert(post.spec_entries().subrange(0, pre.spec_len() as int)[j]
                == post.spec_entries()[j]);
        };
    }
}

proof fn lemma_find_from_push_other<V>(
    e: Seq<(String, V)>,
    ext: Seq<(String, V)>,
    name: Seq<char>,
    case_sensitive: bool,
    i: int,
)
    requires
        0 <= i <= e.len(),
        ext.len() == e.len() + 1,
        forall|j: int| 0 <= j < e.len() ==> #[trigger] ext[j] == e[j],
        !spec_name_eq(ext[e.len() as int].0@, name, case_sensitive),
    ensures
        spec_find_from(ext, name, case_sensitive, i) == spec_find_from(e, name, case_sensitive, i),
    decreases e.len() - i,
{
    if i < e.len() {
        lemma_find_from_push_other(e, ext, name, case_sensitive, i + 1);
    } else {
        assert(spec_find_from(ext, name, case_sensitive, i + 1) == -1);
    }
}

/// A write under one name leaves the lookup of any other name exactly
/// as it was, entry included.
pub proof fn lemma_find_other_after_insert<V>(
    pre: PropertyMap<V>,
    post: PropertyMap<V>,
    written: Seq<char>,
    case_sensitive: bool,
    v: V,
    name: Seq<char>,
)
    requires
        spec_inserted(pre, post, written, case_sensitive, v),
        !spec_name_eq(written, name, case_sensitive),
    ensures
        post.spec_find(name, case_sensitive) == pre.spec_find(name, case_sensitive),
        pre.spec_find(name, case_sensitive) >= 0 ==> post.spec_val(
            pre.spec_find(name, case_sensitive),
        ) == pre.spec_val(pre.spec_find(name, case_sensitive)),
{
    let i = pre.spec_find(written, case_sensitive);
    lemma_find_from_range(pre.spec_entries(), written, case_sensitive, 0);
    lemma_find_from_range(pre.spec_entries(), name, case_sensitive, 0);
    lemma_inserted_frame(pre, post, written, case_sensitive, v);
    if i >= 0 {
        lemma_find_from_congruence(
            pre.spec_entries(),
            post.spec_entries(),
            name,
            case_sensitive,
            0,
        );
        if pre.spec_find(name, case_sensitive) >= 0 {
            assert(pre.spec_find(name, case_sensitive) != i);
        }
    } else {
        assert forall|j: int| 0 <= j < pre.spec_len() implies #[trigger] post.spec_entries()[j]
            == pre.spec_entries()[j] by {
        };
        assert(!spec_name_eq(post.spec_entries()[pre.spec_len() as int].0@, name, case_sensitive));
        lemma_find_from_push_other(
            pre.spec_entries(),
            post.spec_entries(),
            name,
            case_sensitive,
            0,
        );
    }
}

/// After a write, lookup of the written name resolves to the written
/// entry.
pub proof fn lemma_find_after_insert<V>(
    pre: PropertyMap<V>,
    post: PropertyMap<V>,
    name: Seq<char>,
    case_sensitive: bool,
    v: V,
)
    requires
        spec_inserted(pre, post, name, case_sensitive, v),
    ensures
        ({
            let i = pre.spec_find(name, case_sensitive);
            let t: int = if i >= 0 {
                i
            } else {
                pre.spec_len() as int
            };
            &&& post.spec_find(name, case_sensitive) == t
            &&& 0 <= t < post.spec_len()
            &&& post.spec_val(t) == v
            &&& post.spec_key(t) == name || i >= 0
        }),
{
    let i = pre.spec_find(name, case_sensitive);
    lemma_find_from_range(pre.spec_entries(), name, case_sensitive, 0);
    if i >= 0 {
        lemma_find_from_congruence(
            pre.spec_entries(),
            post.spec_entries(),
            name,
            case_sensitive,
            0,
        );
    } else {
        assert forall|j: int| 0 <= j < pre.spec_len() implies #[trigger] post.spec_entries()[j]
            == pre.spec_entries()[j] by {
            assert(post.spec_entries().subrange(0, pre.spec_len() as int)[j]
                == post.spec_entries()[j]);
        };
        lemma_find_from_extend(pre.spec_entries(), post.spec_entries(), name, case_sensitive, 0);
    }
}

/// An ordered table from names to entries.
pub struct PropertyMap<V> {
    entries: Vec<(String, V)>,
}

impl<V> PropertyMap<V> {
    pub closed spec fn spec_entries(&self) -> Seq<(String, V)> {
        self.entries@
    }

    pub open spec fn spec_len(&self) -> nat {
        self.spec_entries().len()
    }

    pub open spec fn spec_key(&self, i: int) -> Seq<char> {
        self.spec_entries()[i].0@
    }

    pub open spec fn spec_val(&self, i: int) -> V {
        self.spec_entries()[i].1
    }

    /// Index of the entry a lookup of `name` resolves to, or -1.
    pub open spec fn spec_find(&self, name: Seq<char>, case_sensitive: bool) -> int {
        spec_find_from(self.spec_entries(), name, case_sensitive, 0)
    }

    pub open spec fn spec_contains(&self, name: Seq<char>, case_sensitive: bool) -> bool {
        self.spec_find(name, case_sensitive) >= 0
    }

    pub fn new() -> (r: PropertyMap<V>)
        ensures
            r.spec_entries() == Seq::<(String, V)>::empty(),
    {
        PropertyMap { entries: Vec::new() }
    }

    pub fn len(&self) -> (r: usize)
        ensures
            r == self.spec_len(),
    {
        self.entries.len()
    }

    pub fn key_at(&self, i: usize) -> (r: &String)
        requires
            i < self.spec_len(),
        ensures
            r@ == self.spec_key(i as int),
    {
        &self.entries[i].0
    }

    pub fn val_at(&self, i: usize) -> (r: &V)
        requires
            i < self.spec_len(),
        ensures
            *r == self.spec_val(i as int),
    {
        &self.entries[i].1
    }

    /// The index the lookup of `name` resolves to.
    pub fn find(&self, name: &str, case_sensitive: bool) -> (r: Option<usize>)
        ensures
            match r {
                Some(i) => self.spec_find(name@, case_sensitive) == i as int && i < self.spec_len(),
                None => self.spec_find(name@, case_sensitive) == -1,
            },
    {
        let mut i: usize = 0;
        while i < self.entries.len()
            invariant
                i <= self.spec_len(),
                spec_find_from(self.spec_entries(), name@, case_sensitive, 0) == spec_find_from(
                    self.spec_entries(),
                    name@,
                    case_sensitive,
                    i as int,
                ),
            decreases self.spec_len() - i,
        {
            if name_eq(self.entries[i].0.as_str(), name, case_sensitive) {
                return Some(i);
            }
            i += 1;
        }
        None
    }

    pub fn get(&self, name: &str, case_sensitive: bool) -> (r: Option<&V>)
        ensures
            match r {
                Some(v) => self.spec_find(name@, case_sensitive) >= 0 && *v == self.spec_val(
                    self.spec_find(name@, case_sensitive),
                ),
                None => self.spec_find(name@, case_sensitive) == -1,
            },
    {
        match self.find(name, case_sensitive) {
            Some(i) => Some(&self.entries[i].1),
            None => None,
        }
    }

    pub fn contains_key(&self, name: &str, case_sensitive: bool) -> (r: bool)
        ensures
            r == self.spec_contains(name@, case_sensitive),
    {
        self.find(name, case_sensitive).is_some()
    }

    /// Replaces the value of the entry at `i`, keeping its name and
    /// position.
    pub fn set_val_at(&mut self, i: usize, value: V)
        requires
            i < old(self).spec_len(),
        ensures
            final(self).spec_entries() == old(self).spec_entries().update(
                i as int,
                (old(self).spec_entries()[i as int].0, value),
            ),
    {
        let (k, _) = self.entries.remove(i);
        self.entries.insert(i, (k, value));
        proof {
            assert(self.entries@ =~= old(self).spec_entries().update(
                i as int,
                (old(self).spec_entries()[i as int].0, value),
            ));
        }
    }

    /// Appends a new entry at the end.
    pub fn push_entry(&mut self, name: &str, value: V)
        ensures
            final(self).spec_entries().len() == old(self).spec_len() + 1,
            final(self).spec_entries().subrange(0, old(self).spec_len() as int) == old(
                self,
            ).spec_entries(),
            final(self).spec_key(old(self).spec_len() as int) == name@,
            final(self).spec_val(old(self).spec_len() as int) == value,
    {
        self.entries.push((name.to_owned(), value));
        proof {
            assert(self.entries@.subrange(0, old(self).spec_len() as int) =~= old(
                self,
            ).spec_entries());
        }
    }

    /// Writes `name` to `value`: through the first matching entry where
    /// one exists (its name and position kept), appended at the end
    /// otherwise.
    pub fn insert(&mut self, name: &str, value: V, case_sensitive: bool)
        ensures
            spec_inserted(*old(self), *final(self), name@, case_sensitive, value),
    {
        match self.find(name, case_sensitive) {
            Some(i) => self.set_val_at(i, value),
            None => self.push_entry(name, value),
        }
    }

    /// Removes the entry a lookup of `name` resolves to, preserving the
    /// order of the others; hands back its value.
    pub fn remove(&mut self, name: &str, case_sensitive: bool) -> (r: Option<V>)
        ensures
            ({
                let i = old(self).spec_find(name@, case_sensitive);
                if i >= 0 {
                    r is Some && final(self).spec_entries() == old(self).spec_entries().remove(i)
                        && r->0 == old(self).spec_val(i)
                } else {
                    r is None && final(self).spec_entries() == old(self).spec_entries()
                }
            }),
    {
        match self.find(name, case_sensitive) {
            Some(i) => {
                let (_, v) = self.entries.remove(i);
                Some(v)
            },
            None => None,
        }
    }
}

} // verus!
