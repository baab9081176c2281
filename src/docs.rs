//! The set of documents being assembled: one ordered list of lines per key.

use vstd::prelude::*;

verus! {

/// What a document holds, as plain sequences.
pub ghost struct DocModel {
    pub key: Seq<char>,
    pub lines: Seq<Seq<char>>,
}

/// The lines gathered under one topic key.
pub struct Document {
    pub key: String,
    pub lines: Vec<String>,
}

impl Document {
    pub open spec fn model(&self) -> DocModel {
        DocModel { key: self.key@, lines: self.lines@.map_values(|l: String| l@) }
    }
}

pub open spec fn keys_distinct(ds: Seq<DocModel>) -> bool {
    forall|i: int, j: int| 0 <= i < j < ds.len() ==> ds[i].key != ds[j].key
}

pub open spec fn has_key(ds: Seq<DocModel>, k: Seq<char>) -> bool {
    exists|i: int| 0 <= i < ds.len() && (#[trigger] ds[i]).key == k
}

/// Where the document of key `k` stands, or the length when there is none.
pub open spec fn key_pos(ds: Seq<DocModel>, k: Seq<char>) -> int {
    if has_key(ds, k) {
        choose|i: int| 0 <= i < ds.len() && (#[trigger] ds[i]).key == k
    } else {
        ds.len() as int
    }
}

/// `ds` with a document for `k`, added empty at the end when missing.
pub open spec fn with_key(ds: Seq<DocModel>, k: Seq<char>) -> Seq<DocModel> {
    if has_key(ds, k) {
        ds
    } else {
        ds.push(DocModel { key: k, lines: seq![] })
    }
}

/// The lines of the document of key `k`; empty when there is none.
pub open spec fn lines_of(ds: Seq<DocModel>, k: Seq<char>) -> Seq<Seq<char>> {
    if has_key(ds, k) {
        ds[key_pos(ds, k)].lines
    } else {
        seq![]
    }
}

pub proof fn lemma_key_pos(ds: Seq<DocModel>, k: Seq<char>, i: int)
    requires
        keys_distinct(ds),
        0 <= i < ds.len(),
        ds[i].key == k,
    ensures
        has_key(ds, k),
        key_pos(ds, k) == i,
{
    assert(has_key(ds, k));
    let j = key_pos(ds, k);
    assert(ds[j].key == k);
    if j < i {
        assert(ds[j].key != ds[i].key);
    } else if i < j {
        assert(ds[i].key != ds[j].key);
    }
}

/// Documents keyed by topic, each key at most once, in order of first use.
pub struct Documents {
    pub entries: Vec<Document>,
}

impl Documents {
    pub open spec fn model(&self) -> Seq<DocModel> {
        self.entries@.map_values(|d: Document| d.model())
    }

    pub open spec fn wf(&self) -> bool {
        keys_distinct(self.model())
    }

    pub fn new() -> (r: Documents)
        ensures
            r.model() == Seq::<DocModel>::empty(),
            r.wf(),
    {
        let r = Documents { entries: Vec::new() };
        assert(r.model() =~= Seq::<DocModel>::empty());
        r
    }

    pub fn len(&self) -> (r: usize)
        ensures
            r == self.model().len(),
    {
        self.entries.len()
    }

    /// Where the document of `key` stands, if there is one.
    pub fn find(&self, key: &String) -> (r: Option<usize>)
        requires
            self.wf(),
        ensures
            r is None ==> !has_key(self.model(), key@),
            r matches Some(i) ==> i < self.model().len() && self.model()[i as int].key == key@
                && key_pos(self.model(), key@) == i,
    {
        let mut i: usize = 0;
        while i < self.entries.len()
            invariant
                self.wf(),
                i <= self.entries@.len(),
                forall|j: int| 0 <= j < i ==> (#[trigger] self.model()[j]).key != key@,
            decreases self.entries@.len() - i,
        {
            if self.entries[i].key.eq(key) {
                proof {
                    lemma_key_pos(self.model(), key@, i as int);
                }
                return Some(i);
            }
            i = i + 1;
        }
        None
    }

    /// The lines of the document of `key`, if there is one.
    pub fn lines(&self, key: &String) -> (r: Option<&Vec<String>>)
        requires
            self.wf(),
        ensures
            r is None ==> !has_key(self.model(), key@),
            r matches Some(v) ==> has_key(self.model(), key@) && v@.map_values(|l: String| l@)
                == lines_of(self.model(), key@),
    {
        match self.find(key) {
            Some(i) => Some(&self.entries[i].lines),
            None => None,
        }
    }

    /// Makes sure a document of `key` exists and returns where it stands.
    pub fn open_key(&mut self, key: &String) -> (r: usize)
        requires
            old(self).wf(),
        ensures
            final(self).wf(),
            final(self).model() == with_key(old(self).model(), key@),
            r == key_pos(final(self).model(), key@),
            r < final(self).model().len(),
            final(self).model()[r as int].key == key@,
    {
        match self.find(key) {
            Some(i) => i,
            None => {
                let i = self.entries.len();
                let ghost m0 = self.model();
                self.entries.push(Document { key: key.clone(), lines: Vec::new() });
                assert(self.entries@[i as int].lines@.map_values(|l: String| l@) =~= Seq::<
                    Seq<char>,
                >::empty());
                assert(self.model() =~= m0.push(DocModel { key: key@, lines: seq![] }));
                assert(self.model() =~= with_key(old(self).model(), key@));
                assert forall|a: int, b: int| 0 <= a < b < self.model().len() implies self.model()[a].key
                    != self.model()[b].key by {
                    if b == i {
                        assert(m0[a].key != key@);
                    }
                }
                proof {
                    lemma_key_pos(self.model(), key@, i as int);
                }
                i
            },
        }
    }

    /// Appends `line` to the document at `i`.
    pub fn push_line(&mut self, i: usize, line: String)
        requires
            old(self).wf(),
            i < old(self).model().len(),
        ensures
            final(self).wf(),
            final(self).model() == old(self).model().update(
                i as int,
                DocModel {
                    key: old(self).model()[i as int].key,
                    lines: old(self).model()[i as int].lines.push(line@),
                },
            ),
    {
        let ghost l = line@;
        self.entries[i].lines.push(line);
        assert(self.entries@[i as int].lines@.map_values(|l: String| l@) =~= old(
            self,
        ).model()[i as int].lines.push(l));
        assert(self.model() =~= old(self).model().update(
            i as int,
            DocModel {
                key: old(self).model()[i as int].key,
                lines: old(self).model()[i as int].lines.push(l),
            },
        ));
    }

    /// The line at `j` of the document at `i`.
    pub fn line_at(&self, i: usize, j: usize) -> (r: &String)
        requires
            i < self.model().len(),
            j < self.model()[i as int].lines.len(),
        ensures
            r@ == self.model()[i as int].lines[j as int],
    {
        &self.entries[i].lines[j]
    }

    /// Replaces the line at `j` of the document at `i` by `line`.
    pub fn set_line(&mut self, i: usize, j: usize, line: String)
        requires
            old(self).wf(),
            i < old(self).model().len(),
            j < old(self).model()[i as int].lines.len(),
        ensures
            final(self).wf(),
            final(self).model() == old(self).model().update(
                i as int,
                DocModel {
                    key: old(self).model()[i as int].key,
                    lines: old(self).model()[i as int].lines.update(j as int, line@),
                },
            ),
    {
        let ghost l = line@;
        self.entries[i].lines.set(j, line);
        assert(self.entries@[i as int].lines@.map_values(|l: String| l@) =~= old(
            self,
        ).model()[i as int].lines.update(j as int, l));
        assert(self.model() =~= old(self).model().update(
            i as int,
            DocModel {
                key: old(self).model()[i as int].key,
                lines: old(self).model()[i as int].lines.update(j as int, l),
            },
        ));
    }
}

} // verus!
