//! The package: the final ordered table of (relative name, content) pairs.
//!
//! Order is discovery order; names need not be unique (two pattern bases
//! can yield files with the same relative name), and both lookup and
//! iteration then see the first occurrence first. Lookup compares names as
//! whole strings, which — names being `/`-joined component sequences — is
//! exact component-wise, platform-neutral comparison.

use vstd::prelude::*;

verus! {

/// One packaged resource: a relative name (path components joined with
/// `/`) and the literal byte content of the file it came from.
#[derive(Debug, Clone, PartialEq, Eq)]
pub struct ResourceEntry {
    pub name: String,
    pub content: Vec<u8>,
}

/// The mathematical model of a [`ResourceEntry`].
#[verifier::ext_equal]
pub struct EntryModel {
    pub name: Seq<char>,
    pub content: Seq<u8>,
}

impl View for ResourceEntry {
    type V = EntryModel;

    open spec fn view(&self) -> EntryModel {
        EntryModel { name: self.name@, content: self.content@ }
    }
}

/// The ordered table of resource entries produced by one pipeline run.
#[derive(Debug, Clone, PartialEq, Eq)]
pub struct Package {
    pub entries: Vec<ResourceEntry>,
}

impl View for Package {
    type V = Seq<EntryModel>;

    open spec fn view(&self) -> Seq<EntryModel> {
        self.entries@.map_values(|e: ResourceEntry| e@)
    }
}

/// The content of the first entry whose name equals `name`, or `None` if
/// no entry matches.
pub open spec fn find_first(entries: Seq<EntryModel>, name: Seq<char>) -> Option<Seq<u8>>
    decreases entries.len(),
{
    if entries.len() == 0 {
        None
    } else if entries[0].name == name {
        Some(entries[0].content)
    } else {
        find_first(entries.drop_first(), name)
    }
}

impl Package {
    /// How many entries the package holds.
    pub fn len(&self) -> (r: usize)
        ensures
            r == self@.len(),
    {
        self.entries.len()
    }

    /// The entries in discovery order, for iteration; restart by asking
    /// again.
    pub fn iterate(&self) -> (r: &Vec<ResourceEntry>)
        ensures
            r@.map_values(|e: ResourceEntry| e@) == self@,
    {
        &self.entries
    }

    /// The content of the first entry (in discovery order) whose name
    /// equals `name`, or `None` if no entry matches; a missing name is
    /// never an error.
    pub fn find(&self, name: &String) -> (r: Option<&Vec<u8>>)
        ensures
            match r {
                Some(content) => find_first(self@, name@) == Some(content@),
                None => find_first(self@, name@) is None,
            },
    {
        let n = self.entries.len();
        proof {
            assert(self@.skip(0) =~= self@);
        }
        let mut i: usize = 0;
        while i < n
            invariant
                n == self.entries@.len(),
                i <= n,
                find_first(self@, name@) == find_first(self@.skip(i as int), name@),
            decreases n - i,
        {
            proof {
                assert(self@.skip(i as int)[0] == self@[i as int]);
                assert(self@.skip(i as int).drop_first() =~= self@.skip(i as int + 1));
            }
            if self.entries[i].name.eq(name) {
                return Some(&self.entries[i].content);
            }
            i += 1;
        }
        proof {
            assert(self@.skip(n as int) =~= Seq::<EntryModel>::empty());
        }
        None
    }
}

/// Lookup is exactly first-match-in-discovery-order: it misses precisely
/// when no entry carries the name, and whenever some entry does, it yields
/// the content of the earliest one.
pub proof fn lemma_find_first_match(entries: Seq<EntryModel>, name: Seq<char>)
    ensures
        (find_first(entries, name) is None) <==> (forall|i: int|
            0 <= i < entries.len() ==> entries[i].name != name),
        forall|i: int|
            0 <= i < entries.len() && entries[i].name == name && (forall|j: int|
                0 <= j < i ==> entries[j].name != name) ==> find_first(entries, name) == Some(
                entries[i].content,
            ),
    decreases entries.len(),
{
    if entries.len() == 0 {
    } else {
        lemma_find_first_match(entries.drop_first(), name);
        let rest = entries.drop_first();
        if entries[0].name == name {
        } else {
            if find_first(entries, name) is None {
                assert forall|i: int| 0 <= i < entries.len() implies entries[i].name != name by {
                    if i > 0 {
                        assert(rest[i - 1] == entries[i]);
                    }
                }
            }
            if forall|i: int| 0 <= i < entries.len() ==> entries[i].name != name {
                assert forall|i: int| 0 <= i < rest.len() implies rest[i].name != name by {
                    assert(rest[i] == entries[i + 1]);
                }
            }
            assert forall|i: int|
                0 <= i < entries.len() && entries[i].name == name && (forall|j: int|
                    0 <= j < i ==> entries[j].name != name) implies find_first(entries, name)
                == Some(entries[i].content) by {
                assert(i > 0);
                assert(rest[i - 1] == entries[i]);
                assert forall|j: int| 0 <= j < i - 1 implies rest[j].name != name by {
                    assert(rest[j] == entries[j + 1]);
                }
            }
        }
    }
}

} // verus!
