//! Which object each chunk of the cluster belongs to.
use std::collections::HashMap;

use vstd::prelude::*;

use crate::metadata_store::MetaChunk;
use crate::tables::entries_of;
use crate::text::{same_text, texts};

verus! {

broadcast use vstd::std_specs::hash::group_hash_axioms;

/// The views of a list of index entries.
pub open spec fn entry_views(entries: Seq<(u64, String)>) -> Seq<(u64, Seq<char>)> {
    entries.map_values(|e: (u64, String)| (e.0, e.1@))
}

/// `m` with `entries` put in, in order.
pub open spec fn with_entries(
    m: Map<u64, Seq<char>>,
    entries: Seq<(u64, Seq<char>)>,
) -> Map<u64, Seq<char>>
    decreases entries.len(),
{
    if entries.len() == 0 {
        m
    } else {
        with_entries(m, entries.drop_last()).insert(entries.last().0, entries.last().1)
    }
}

/// The name of the object of every chunk. All servers of a cluster keep such an
/// index, so that each can tell who owns a chunk.
pub struct ChunkIndex {
    index: HashMap<u64, String>,
}

impl View for ChunkIndex {
    type V = Map<u64, Seq<char>>;

    closed spec fn view(&self) -> Map<u64, Seq<char>> {
        self.index@.map_values(|s: String| s@)
    }
}

impl ChunkIndex {
    /// An empty index.
    pub fn new() -> (r: Self)
        ensures
            r@ == Map::<u64, Seq<char>>::empty(),
    {
        let r = ChunkIndex { index: HashMap::new() };
        assert(r@ =~= Map::<u64, Seq<char>>::empty());
        r
    }

    /// Puts a chunk in.
    pub fn insert(&mut self, chunk_id: u64, object_name: String)
        ensures
            final(self)@ == old(self)@.insert(chunk_id, object_name@),
    {
        let ghost before = self@;
        self.index.insert(chunk_id, object_name);
        assert(self@ =~= before.insert(chunk_id, object_name@));
    }

    /// The object of a chunk.
    pub fn get(&self, chunk_id: u64) -> (r: Option<String>)
        ensures
            match r {
                Some(name) => self@.contains_key(chunk_id) && name@ == self@[chunk_id],
                None => !self@.contains_key(chunk_id),
            },
    {
        match self.index.get(&chunk_id) {
            Some(name) => Some(name.clone()),
            None => None,
        }
    }

    /// Takes a chunk out.
    pub fn remove(&mut self, chunk_id: u64) -> (r: Option<String>)
        ensures
            final(self)@ == old(self)@.remove(chunk_id),
            match r {
                Some(name) => old(self)@.contains_key(chunk_id) && name@ == old(self)@[chunk_id],
                None => !old(self)@.contains_key(chunk_id),
            },
    {
        let ghost before = self@;
        let r: Option<String> = self.index.remove(&chunk_id);
        assert(self@ =~= before.remove(chunk_id));
        r
    }

    /// Takes several chunks out.
    pub fn remove_all(&mut self, chunk_ids: &Vec<u64>)
        ensures
            final(self)@ == old(self)@.remove_keys(chunk_ids@.to_set()),
    {
        let ghost before = self@;
        let ghost ids = chunk_ids@;
        let mut i: usize = 0;
        assert(self@ =~= before.remove_keys(ids.take(0).to_set()));
        while i < chunk_ids.len()
            invariant
                i <= ids.len(),
                ids == chunk_ids@,
                self@ == before.remove_keys(ids.take(i as int).to_set()),
            decreases ids.len() - i,
        {
            self.remove(chunk_ids[i]);
            proof {
                let upto = ids.take(i as int);
                let now = ids.take(i + 1);
                assert(now =~= upto.push(ids[i as int]));
                assert forall|id: u64| now.to_set().contains(id) <==> upto.to_set().contains(id)
                    || id == ids[i as int] by {
                    if upto.contains(id) {
                        let k = choose|k: int| 0 <= k < upto.len() && upto[k] == id;
                        assert(now[k] == id);
                    }
                    assert(now[i as int] == ids[i as int]);
                }
                assert(self@ =~= before.remove_keys(now.to_set()));
            }
            i = i + 1;
        }
        assert(ids.take(ids.len() as int) =~= ids);
    }

    /// Puts several chunks in.
    pub fn bulk_insert(&mut self, entries: Vec<(u64, String)>)
        ensures
            final(self)@ == with_entries(old(self)@, entry_views(entries@)),
    {
        let ghost before = self@;
        let ghost all = entry_views(entries@);
        let mut i: usize = 0;
        assert(all.take(0) =~= Seq::<(u64, Seq<char>)>::empty());
        while i < entries.len()
            invariant
                i <= entries@.len(),
                all == entry_views(entries@),
                self@ == with_entries(before, all.take(i as int)),
            decreases entries@.len() - i,
        {
            assert(all.take(i + 1).drop_last() =~= all.take(i as int));
            assert(all[i as int] == (entries@[i as int].0, entries@[i as int].1@));
            self.insert(entries[i].0, entries[i].1.clone());
            i = i + 1;
        }
        assert(all.take(all.len() as int) =~= all);
    }

    /// Takes all chunks of some objects out.
    pub fn remove_by_objects(&mut self, object_names: &[String])
        ensures
            final(self)@ == Map::new(
                |id: u64|
                    old(self)@.contains_key(id) && !texts(object_names@).contains(old(self)@[id]),
                |id: u64| old(self)@[id],
            ),
    {
        let ghost before = self@;
        let ghost names = texts(object_names@);
        let entries: Vec<(u64, String)> = self.entries();
        let ghost all = entry_views(entries@);
        let mut i: usize = 0;
        while i < entries.len()
            invariant
                i <= entries@.len(),
                names == texts(object_names@),
                all == entry_views(entries@),
                forall|k: int|
                    0 <= k < all.len() ==> before.contains_key((#[trigger] all[k]).0)
                        && before[all[k].0] == all[k].1,
                forall|id: u64| #[trigger]
                    self@.contains_key(id) <==> before.contains_key(id) && !(names.contains(
                        before[id],
                    ) && all.take(i as int).map_values(|e: (u64, Seq<char>)| e.0).contains(id)),
                forall|id: u64| #[trigger] self@.contains_key(id) ==> self@[id] == before[id],
            decreases entries@.len() - i,
        {
            let ghost was = self@;
            let ghost upto = all.take(i as int).map_values(|e: (u64, Seq<char>)| e.0);
            let ghost now = all.take(i + 1).map_values(|e: (u64, Seq<char>)| e.0);
            let ghost id = all[i as int].0;
            proof {
                assert(all[i as int] == (entries@[i as int].0, entries@[i as int].1@));
                assert(now =~= upto.push(id));
                assert forall|x: u64| now.contains(x) <==> upto.contains(x) || x == id by {
                    if upto.contains(x) {
                        let k = choose|k: int| 0 <= k < upto.len() && upto[k] == x;
                        assert(now[k] == x);
                    }
                    assert(now[i as int] == id);
                }
            }
            if contains_name(object_names, entries[i].1.as_str()) {
                self.remove(entries[i].0);
            }
            proof {
                assert forall|x: u64| #[trigger]
                    self@.contains_key(x) <==> before.contains_key(x) && !(names.contains(before[x])
                        && now.contains(x)) by {
                    assert(was.contains_key(x) <==> before.contains_key(x) && !(names.contains(
                        before[x],
                    ) && upto.contains(x)));
                    assert(now.contains(x) <==> upto.contains(x) || x == id);
                }
                assert forall|x: u64| #[trigger] self@.contains_key(x) implies self@[x] == before[x] by {
                    assert(was.contains_key(x));
                }
            }
            i = i + 1;
        }
        proof {
            assert(all.take(all.len() as int) =~= all);
            let ids = all.map_values(|e: (u64, Seq<char>)| e.0);
            let after = Map::new(
                |id: u64| before.contains_key(id) && !names.contains(before[id]),
                |id: u64| before[id],
            );
            assert forall|x: u64| self@.contains_key(x) <==> after.contains_key(x) by {
                if before.contains_key(x) {
                    let k = choose|k: int| 0 <= k < all.len() && (#[trigger] all[k]).0 == x;
                    assert(ids[k] == x);
                }
            }
            assert(self@ =~= after);
        }
    }

    /// Puts all chunks of a metadata store in.
    pub fn populate_from_chunks(&mut self, chunks: &HashMap<u64, MetaChunk>)
        ensures
            final(self)@ == old(self)@.union_prefer_right(
                chunks@.map_values(|c: MetaChunk| c@.object_name),
            ),
    {
        let ghost before = self@;
        let entries: Vec<(u64, &MetaChunk)> = entries_of(chunks);
        let ghost ids = entries@.map_values(|e: (u64, &MetaChunk)| e.0);
        let mut i: usize = 0;
        while i < entries.len()
            invariant
                i <= entries@.len(),
                ids == entries@.map_values(|e: (u64, &MetaChunk)| e.0),
                forall|k: int|
                    0 <= k < entries@.len() ==> chunks@.contains_key((#[trigger] entries@[k]).0)
                        && chunks@[entries@[k].0] == *entries@[k].1,
                forall|id: u64| #[trigger]
                    self@.contains_key(id) <==> before.contains_key(id) || ids.take(
                        i as int,
                    ).contains(id),
                forall|id: u64| #[trigger]
                    self@.contains_key(id) ==> self@[id] == if ids.take(i as int).contains(id) {
                        chunks@[id]@.object_name
                    } else {
                        before[id]
                    },
            decreases entries@.len() - i,
        {
            let ghost was = self@;
            let ghost upto = ids.take(i as int);
            let ghost now = ids.take(i + 1);
            self.insert(entries[i].0, entries[i].1.object_name.clone());
            proof {
                assert(now =~= upto.push(ids[i as int]));
                assert forall|x: u64| now.contains(x) <==> upto.contains(x) || x == ids[i as int] by {
                    if upto.contains(x) {
                        let k = choose|k: int| 0 <= k < upto.len() && upto[k] == x;
                        assert(now[k] == x);
                    }
                    assert(now[i as int] == ids[i as int]);
                }
                assert forall|id: u64| #[trigger]
                    self@.contains_key(id) <==> before.contains_key(id) || now.contains(id) by {
                    assert(was.contains_key(id) <==> before.contains_key(id) || upto.contains(id));
                    assert(now.contains(id) <==> upto.contains(id) || id == ids[i as int]);
                }
                assert forall|id: u64| #[trigger] self@.contains_key(id) implies self@[id]
                    == if now.contains(id) {
                    chunks@[id]@.object_name
                } else {
                    before[id]
                } by {
                    assert(now.contains(id) <==> upto.contains(id) || id == ids[i as int]);
                    if id != ids[i as int] {
                        assert(was.contains_key(id));
                    }
                }
            }
            i = i + 1;
        }
        proof {
            assert(ids.take(ids.len() as int) =~= ids);
            let names = chunks@.map_values(|c: MetaChunk| c@.object_name);
            assert forall|id: u64| chunks@.contains_key(id) <==> ids.contains(id) by {
                if ids.contains(id) {
                    let k = choose|k: int| 0 <= k < ids.len() && ids[k] == id;
                    assert(chunks@.contains_key(entries@[k].0));
                }
            }
            assert(self@ =~= before.union_prefer_right(names));
        }
    }

    /// All chunks, each with its object, in some order.
    pub fn entries(&self) -> (r: Vec<(u64, String)>)
        ensures
            r@.len() == self@.len(),
            forall|i: int|
                0 <= i < r@.len() ==> self@.contains_key((#[trigger] r@[i]).0) && self@[r@[i].0]
                    == r@[i].1@,
            forall|id: u64| #[trigger]
                self@.contains_key(id) ==> exists|i: int|
                    0 <= i < r@.len() && (#[trigger] entry_views(r@)[i]).0 == id,
    {
        let entries: Vec<(u64, &String)> = entries_of(&self.index);
        assert(self@.dom() =~= self.index@.dom());
        let ghost ids = entries@.map_values(|e: (u64, &String)| e.0);
        let mut r: Vec<(u64, String)> = Vec::new();
        let mut i: usize = 0;
        while i < entries.len()
            invariant
                i <= entries@.len(),
                r@.len() == i,
                forall|k: int|
                    0 <= k < i ==> (#[trigger] r@[k]).0 == entries@[k].0 && r@[k].1@
                        == (*entries@[k].1)@,
            decreases entries@.len() - i,
        {
            r.push((entries[i].0, entries[i].1.clone()));
            i = i + 1;
        }
        proof {
            assert forall|k: int| 0 <= k < r@.len() implies self@.contains_key((#[trigger] r@[k]).0)
                && self@[r@[k].0] == r@[k].1@ by {
                assert(self.index@.contains_key(entries@[k].0));
            }
            assert forall|id: u64| #[trigger] self@.contains_key(id) implies exists|k: int|
                0 <= k < r@.len() && (#[trigger] entry_views(r@)[k]).0 == id by {
                assert(self.index@.contains_key(id));
                let k = choose|k: int| 0 <= k < ids.len() && ids[k] == id;
                assert(entry_views(r@)[k].0 == id);
            }
        }
        r
    }

    /// The number of chunks.
    pub fn len(&self) -> (r: usize)
        ensures
            r == self@.len(),
    {
        assert(self@.dom() =~= self.index@.dom());
        self.index.len()
    }
}

/// Whether `name` is among `names`.
pub fn contains_name(names: &[String], name: &str) -> (r: bool)
    ensures
        r == texts(names@).contains(name@),
{
    let ghost all = texts(names@);
    let mut i: usize = 0;
    while i < names.len()
        invariant
            i <= names@.len(),
            all == texts(names@),
            forall|j: int| 0 <= j < i ==> #[trigger] all[j] != name@,
        decreases names@.len() - i,
    {
        assert(all[i as int] == names@[i as int]@);
        if same_text(names[i].as_str(), name) {
            return true;
        }
        i = i + 1;
    }
    false
}

/// After a bulk insert every inserted chunk is known, under the object of its
/// last entry; all other chunks are as before.
pub proof fn bulk_insert_knows_every_chunk(
    m: Map<u64, Seq<char>>,
    entries: Seq<(u64, Seq<char>)>,
    id: u64,
)
    ensures
        with_entries(m, entries).contains_key(id) <==> m.contains_key(id) || exists|i: int|
            0 <= i < entries.len() && (#[trigger] entries[i]).0 == id,
        with_entries(m, entries).contains_key(id) ==> if exists|i: int|
            0 <= i < entries.len() && (#[trigger] entries[i]).0 == id {
            exists|i: int|
                0 <= i < entries.len() && (#[trigger] entries[i]) == (
                    id,
                    with_entries(m, entries)[id],
                ) && forall|j: int| i < j < entries.len() ==> (#[trigger] entries[j]).0 != id
        } else {
            with_entries(m, entries)[id] == m[id]
        },
    decreases entries.len(),
{
    if entries.len() > 0 {
        let rest = entries.drop_last();
        let last = entries.len() - 1;
        bulk_insert_knows_every_chunk(m, rest, id);
        if entries[last].0 == id {
            assert(entries[last] == (id, with_entries(m, entries)[id]));
        } else if exists|i: int| 0 <= i < rest.len() && (#[trigger] rest[i]).0 == id {
            let i = choose|i: int|
                0 <= i < rest.len() && (#[trigger] rest[i]) == (id, with_entries(m, rest)[id])
                    && forall|j: int| i < j < rest.len() ==> (#[trigger] rest[j]).0 != id;
            assert(entries[i] == rest[i]);
            assert forall|j: int| i < j < entries.len() implies (#[trigger] entries[j]).0 != id by {
                if j < last {
                    assert(rest[j].0 != id);
                }
            }
        } else {
            if exists|i: int| 0 <= i < entries.len() && (#[trigger] entries[i]).0 == id {
                let i = choose|i: int| 0 <= i < entries.len() && (#[trigger] entries[i]).0 == id;
                assert(rest[i].0 == id);
            }
        }
    }
}

} // verus!
