//! The size table: the traversal's sole output, a mapping from structural
//! field path to the byte count of that field's whole representation.

use vstd::prelude::*;
use crate::model::EntriesModel;
use crate::model::PathModel;

verus! {

/// The mapping that a run of recorded entries denotes: each entry binds its
/// path, a later entry for the same path superseding an earlier one.
pub open spec fn table_model(entries: EntriesModel) -> Map<PathModel, int>
    decreases entries.len(),
{
    if entries.len() == 0 {
        Map::empty()
    } else {
        table_model(entries.drop_last()).insert(entries.last().0, entries.last().1)
    }
}

/// A table from field path to byte count, built up entry by entry during a
/// single traversal and returned as an immutable snapshot.
pub struct SizeTable {
    entries: Vec<(Vec<String>, usize)>,
}

impl View for SizeTable {
    type V = EntriesModel;

    closed spec fn view(&self) -> EntriesModel {
        Seq::new(
            self.entries@.len(),
            |i: int| (self.entries@[i].0.deep_view(), self.entries@[i].1 as int),
        )
    }
}

impl SizeTable {
    /// The mapping this table holds.
    pub open spec fn as_map(&self) -> Map<PathModel, int> {
        table_model(self@)
    }

    /// An empty table.
    pub fn new() -> (r: SizeTable)
        ensures
            r@ == Seq::<(PathModel, int)>::empty(),
    {
        let r = SizeTable { entries: Vec::new() };
        proof {
            assert(r@ =~= Seq::<(PathModel, int)>::empty());
        }
        r
    }

    /// Records one path with its byte count.
    pub(crate) fn push_entry(&mut self, path: Vec<String>, size: usize)
        ensures
            final(self)@ == old(self)@.push((path.deep_view(), size as int)),
    {
        let ghost pv = path.deep_view();
        self.entries.push((path, size));
        proof {
            assert(self@ =~= old(self)@.push((pv, size as int)));
        }
    }

    /// How many entries the table holds.
    pub fn len(&self) -> (r: usize)
        ensures
            r == self@.len(),
    {
        self.entries.len()
    }

    /// The byte count recorded for `path`, or nothing when the traversal
    /// never entered a node at that path.
    pub fn get(&self, path: &Vec<String>) -> (r: Option<usize>)
        ensures
            match r {
                Some(n) => self.as_map().contains_key(path.deep_view()) && self.as_map()[
                    path.deep_view()
                ] == n as int,
                None => !self.as_map().contains_key(path.deep_view()),
            },
    {
        let ghost pv = path.deep_view();
        let mut j: usize = self.entries.len();
        proof {
            assert(self@.take(j as int) =~= self@);
        }
        while j > 0
            invariant
                j <= self.entries@.len(),
                pv == path.deep_view(),
                table_model(self@).contains_key(pv) == table_model(self@.take(j as int)).contains_key(pv),
                table_model(self@).contains_key(pv) ==> table_model(self@)[pv] == table_model(
                    self@.take(j as int),
                )[pv],
            decreases j,
        {
            j = j - 1;
            proof {
                let s = self@;
                assert(s.take(j + 1).drop_last() =~= s.take(j as int));
                assert(s.take(j + 1).last() == s[j as int]);
                assert(table_model(s.take(j + 1)) == table_model(s.take(j as int)).insert(
                    s[j as int].0,
                    s[j as int].1,
                ));
                assert(s[j as int].0 == self.entries@[j as int].0.deep_view());
            }
            let pair = &self.entries[j];
            proof {
                assert(*pair == self.entries@[j as int]);
                assert(self@[j as int].0 == self.entries@[j as int].0.deep_view());
            }
            let hit = path_eq(&pair.0, path);
            if hit {
                proof {
                    assert(table_model(self@.take(j + 1))[pv] == self@[j as int].1);
                }
                return Some(pair.1);
            }
        }
        proof {
            assert(self@.take(0) =~= Seq::<(PathModel, int)>::empty());
        }
        None
    }
}

/// Whether two paths name the same structural position: their sequences of
/// names are equal element-wise.
pub fn path_eq(a: &Vec<String>, b: &Vec<String>) -> (r: bool)
    ensures
        r == (a.deep_view() == b.deep_view()),
{
    if a.len() != b.len() {
        proof {
            assert(a.deep_view().len() == a@.len());
            assert(b.deep_view().len() == b@.len());
        }
        return false;
    }
    let mut i: usize = 0;
    while i < a.len()
        invariant
            i <= a@.len(),
            a@.len() == b@.len(),
            forall|k: int| 0 <= k < i ==> a@[k]@ == b@[k]@,
        decreases a@.len() - i,
    {
        if !(a[i] == b[i]) {
            proof {
                assert(a.deep_view()[i as int] == a@[i as int]@);
                assert(b.deep_view()[i as int] == b@[i as int]@);
            }
            return false;
        }
        i = i + 1;
    }
    proof {
        assert forall|k: int| 0 <= k < a@.len() implies a.deep_view()[k] == b.deep_view()[k] by {
            assert(a.deep_view()[k] == a@[k]@);
            assert(b.deep_view()[k] == b@[k]@);
        }
        assert(a.deep_view() =~= b.deep_view());
    }
    true
}

} // verus!
