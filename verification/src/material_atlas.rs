//! Materials by name, as a scene description refers to them.
use crate::material::{grey, Diffuse, Material, HALF_BITS};
use vstd::prelude::*;

verus! {

/// A name and the material it stands for.
pub struct Entry {
    pub name: String,
    pub material: Material,
}

/// The material of the first entry with the given name.
pub open spec fn lookup(entries: Seq<Entry>, name: Seq<char>) -> Option<Material>
    decreases entries.len(),
{
    if entries.len() == 0 {
        None
    } else if entries[0].name@ == name {
        Some(entries[0].material)
    } else {
        lookup(entries.drop_first(), name)
    }
}

/// A name that no entry before `i` has is looked up from `i` on.
proof fn lemma_lookup_skip(entries: Seq<Entry>, name: Seq<char>, i: int)
    requires
        0 <= i <= entries.len(),
        forall|k: int| 0 <= k < i ==> (#[trigger] entries[k]).name@ != name,
    ensures
        lookup(entries, name) == lookup(entries.subrange(i, entries.len() as int), name),
    decreases i,
{
    if i == 0 {
        assert(entries.subrange(0, entries.len() as int) =~= entries);
    } else {
        let rest = entries.drop_first();
        assert forall|k: int| 0 <= k < i - 1 implies (#[trigger] rest[k]).name@ != name by {
            assert(rest[k] == entries[k + 1]);
        }
        lemma_lookup_skip(rest, name, i - 1);
        assert(rest.subrange(i - 1, rest.len() as int) =~= entries.subrange(
            i,
            entries.len() as int,
        ));
        assert(entries[0].name@ != name);
    }
}

/// Replacing the entry at `i` by one of the same name changes what that
/// name stands for, if no earlier entry has it, and nothing else.
proof fn lemma_lookup_update(entries: Seq<Entry>, i: int, e: Entry, name: Seq<char>)
    requires
        0 <= i < entries.len(),
        entries[i].name@ == e.name@,
        forall|k: int| 0 <= k < i ==> (#[trigger] entries[k]).name@ != e.name@,
    ensures
        lookup(entries.update(i, e), name) == if name == e.name@ {
            Some(e.material)
        } else {
            lookup(entries, name)
        },
    decreases i,
{
    let after = entries.update(i, e);
    if i == 0 {
        assert(after.drop_first() =~= entries.drop_first());
    } else {
        let rest = entries.drop_first();
        assert forall|k: int| 0 <= k < i - 1 implies (#[trigger] rest[k]).name@ != e.name@ by {
            assert(rest[k] == entries[k + 1]);
        }
        lemma_lookup_update(rest, i - 1, e, name);
        assert(after.drop_first() =~= rest.update(i - 1, e));
        assert(entries[0].name@ != e.name@);
    }
}

/// A new entry at the end gives its name a meaning, if the name had none,
/// and changes nothing else.
proof fn lemma_lookup_push(entries: Seq<Entry>, e: Entry, name: Seq<char>)
    requires
        forall|k: int| 0 <= k < entries.len() ==> (#[trigger] entries[k]).name@ != e.name@,
    ensures
        lookup(entries.push(e), name) == if name == e.name@ {
            Some(e.material)
        } else {
            lookup(entries, name)
        },
    decreases entries.len(),
{
    let after = entries.push(e);
    if entries.len() == 0 {
        reveal_with_fuel(lookup, 2);
        assert(after[0] == e);
        assert(after.drop_first() =~= Seq::<Entry>::empty());
    } else {
        assert(after[0] == entries[0]);
        let rest = entries.drop_first();
        assert forall|k: int| 0 <= k < rest.len() implies (#[trigger] rest[k]).name@
            != e.name@ by {
            assert(rest[k] == entries[k + 1]);
        }
        lemma_lookup_push(rest, e, name);
        assert(after.drop_first() =~= rest.push(e));
        assert(entries[0].name@ != e.name@);
    }
}

/// The materials of a scene, each under its name.
pub struct MaterialAtlas {
    atlas: Vec<Entry>,
}

impl MaterialAtlas {
    /// The material that a name stands for, if it stands for one.
    pub closed spec fn get_spec(&self, name: Seq<char>) -> Option<Material> {
        lookup(self.atlas@, name)
    }

    /// An atlas without any name.
    pub fn new() -> (atlas: Self)
        ensures
            forall|name: Seq<char>| atlas.get_spec(name) is None,
    {
        MaterialAtlas { atlas: Vec::new() }
    }

    fn position(&self, key: &String) -> (at: Option<usize>)
        ensures
            match at {
                Some(i) => {
                    &&& i < self.atlas@.len()
                    &&& self.atlas@[i as int].name@ == key@
                    &&& forall|k: int| 0 <= k < i ==> (#[trigger] self.atlas@[k]).name@ != key@
                    &&& self.get_spec(key@) == Some(self.atlas@[i as int].material)
                },
                None => {
                    &&& forall|k: int|
                        0 <= k < self.atlas@.len() ==> (#[trigger] self.atlas@[k]).name@ != key@
                    &&& self.get_spec(key@) is None
                },
            },
    {
        let mut i: usize = 0;
        while i < self.atlas.len()
            invariant
                i <= self.atlas@.len(),
                forall|k: int| 0 <= k < i ==> (#[trigger] self.atlas@[k]).name@ != key@,
            decreases self.atlas@.len() - i,
        {
            if self.atlas[i].name == *key {
                proof {
                    lemma_lookup_skip(self.atlas@, key@, i as int);
                }
                return Some(i);
            }
            i = i + 1;
        }
        proof {
            lemma_lookup_skip(self.atlas@, key@, self.atlas@.len() as int);
        }
        None
    }

    /// Puts a material under a name. The answer is what the name stood for
    /// before; no other name changes its meaning.
    pub fn insert_material(&mut self, name: &str, object: Material) -> (before: Option<Material>)
        ensures
            before == old(self).get_spec(name@),
            final(self).get_spec(name@) == Some(object),
            forall|other: Seq<char>|
                other != name@ ==> final(self).get_spec(other) == old(self).get_spec(other),
    {
        let key = String::from_str(name);
        let entry = Entry { name: key, material: object };
        match self.position(&entry.name) {
            Some(i) => {
                let before = self.atlas[i].material;
                proof {
                    assert forall|other: Seq<char>| true implies lookup(
                        self.atlas@.update(i as int, entry),
                        other,
                    ) == if other == name@ {
                        Some(object)
                    } else {
                        lookup(self.atlas@, other)
                    } by {
                        lemma_lookup_update(self.atlas@, i as int, entry, other);
                    }
                }
                self.atlas.set(i, entry);
                Some(before)
            },
            None => {
                proof {
                    assert forall|other: Seq<char>| true implies lookup(
                        self.atlas@.push(entry),
                        other,
                    ) == if other == name@ {
                        Some(object)
                    } else {
                        lookup(self.atlas@, other)
                    } by {
                        lemma_lookup_push(self.atlas@, entry, other);
                    }
                }
                self.atlas.push(entry);
                None
            },
        }
    }

    /// The material under a name.
    pub fn get_material(&self, name: &str) -> (found: Option<Material>)
        ensures
            found == self.get_spec(name@),
    {
        let key = String::from_str(name);
        match self.position(&key) {
            Some(i) => Some(self.atlas[i].material),
            None => None,
        }
    }
}

/// The name under which every atlas starts with a grey diffuse material.
pub open spec fn default_name() -> Seq<char> {
    "Default"@
}

impl Default for MaterialAtlas {
    fn default() -> (atlas: Self)
        ensures
            atlas.get_spec(default_name()) == Some(
                Material::Diffuse(Diffuse { albedo: grey(HALF_BITS) }),
            ),
            forall|name: Seq<char>| name != default_name() ==> atlas.get_spec(name) is None,
    {
        let mut atlas = MaterialAtlas::new();
        atlas.insert_material("Default", Material::Diffuse(Diffuse::default()));
        atlas
    }
}

} // verus!
