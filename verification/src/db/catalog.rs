use crate::db::table::{Table, TableV};
use crate::parse::token::bytes_eq;
use vstd::prelude::*;

verus! {

/// The process-wide catalog: a mapping from table name to table.
/// Entry `k` of `names` names the table at entry `k` of `tables`.
#[derive(Debug)]
pub struct Db {
    names: Vec<Vec<u8>>,
    tables: Vec<Table>,
}

/// Specification-level form of the catalog.
pub struct DbV {
    pub names: Seq<Seq<u8>>,
    pub tables: Seq<TableV>,
}

impl View for Db {
    type V = DbV;

    closed spec fn view(&self) -> DbV {
        DbV { names: self.names.deep_view(), tables: self.tables.deep_view() }
    }
}

/// The position of the first entry named `name`, if any.
pub open spec fn spec_lookup(names: Seq<Seq<u8>>, name: Seq<u8>) -> Option<int>
    decreases names.len(),
{
    if names.len() == 0 {
        None
    } else if names[0] == name {
        Some(0int)
    } else {
        match spec_lookup(names.skip(1), name) {
            Some(i) => Some(i + 1),
            None => None,
        }
    }
}

pub proof fn lemma_lookup_bounds(names: Seq<Seq<u8>>, name: Seq<u8>)
    ensures
        spec_lookup(names, name) matches Some(i) ==> 0 <= i < names.len() && names[i] == name,
    decreases names.len(),
{
    if names.len() > 0 && names[0] != name {
        lemma_lookup_bounds(names.skip(1), name);
    }
}

impl DbV {
    /// The name lists and table lists pair up, and every table keeps
    /// its invariant.
    pub open spec fn wf(self) -> bool {
        &&& self.names.len() == self.tables.len()
        &&& forall|i: int| 0 <= i < self.tables.len() ==> (#[trigger] self.tables[i]).wf()
    }
}

impl Db {
    /// An empty catalog.
    pub fn new() -> (r: Db)
        ensures
            r@.names == Seq::<Seq<u8>>::empty(),
            r@.tables == Seq::<TableV>::empty(),
            r@.wf(),
    {
        let names: Vec<Vec<u8>> = Vec::new();
        let tables: Vec<Table> = Vec::new();
        let d = Db { names, tables };
        proof {
            assert(d@.names =~= Seq::<Seq<u8>>::empty());
            assert(d@.tables =~= Seq::<TableV>::empty());
        }
        d
    }

    /// The position of the entry named `name`, if any.
    fn index_of(&self, name: &[u8]) -> (r: Option<usize>)
        ensures
            match r {
                Some(i) => spec_lookup(self@.names, name@) == Some(i as int),
                None => spec_lookup(self@.names, name@) is None,
            },
    {
        let n = self.names.len();
        let mut i: usize = 0;
        proof {
            assert(self@.names.skip(0) =~= self@.names);
        }
        while i < n
            invariant
                n == self.names@.len(),
                self@.names.len() == n,
                forall|k: int| 0 <= k < n ==> #[trigger] self@.names[k] == self.names@[k]@,
                i <= n,
                spec_lookup(self@.names, name@) == match spec_lookup(
                    self@.names.skip(i as int),
                    name@,
                ) {
                    Some(q) => Some(q + i),
                    None => None,
                },
            decreases n - i,
        {
            proof {
                let rest = self@.names.skip(i as int);
                assert(rest[0] == self@.names[i as int]);
                assert(rest.skip(1) =~= self@.names.skip(i + 1));
            }
            if bytes_eq(self.names[i].as_slice(), name) {
                return Some(i);
            }
            i = i + 1;
        }
        proof {
            assert(self@.names.skip(n as int) =~= Seq::<Seq<u8>>::empty());
        }
        None
    }

    /// The table named `name`, if any.
    pub fn get(&self, name: &[u8]) -> (r: Option<&Table>)
        requires
            self@.wf(),
        ensures
            match r {
                Some(t) => spec_lookup(self@.names, name@) matches Some(i) && t@
                    == self@.tables[i],
                None => spec_lookup(self@.names, name@) is None,
            },
    {
        match self.index_of(name) {
            Some(i) => {
                proof {
                    lemma_lookup_bounds(self@.names, name@);
                    assert(self@.names.len() == self.names@.len());
                    assert(self@.tables.len() == self.tables@.len());
                    assert(self@.tables[i as int] == self.tables@[i as int]@);
                }
                Some(&self.tables[i])
            },
            None => None,
        }
    }

    /// A mutable borrow of the table named `name`, if any.
    pub fn get_mut(&mut self, name: &[u8]) -> (r: Option<&mut Table>)
        requires
            old(self)@.wf(),
        ensures
            match r {
                Some(t) => {
                    &&& spec_lookup(old(self)@.names, name@) matches Some(i)
                    &&& 0 <= i < old(self)@.tables.len()
                    &&& t@ == old(self)@.tables[i]
                    &&& final(self)@.names == old(self)@.names
                    &&& final(self)@.tables.len() == old(self)@.tables.len()
                    &&& final(self)@.tables[i] == final(t)@
                    &&& (forall|k: int|
                        0 <= k < old(self)@.tables.len() && k != i ==> final(self)@.tables[k]
                            == old(self)@.tables[k])
                },
                None => spec_lookup(old(self)@.names, name@) is None && final(self)@ == old(
                    self,
                )@,
            },
    {
        match self.index_of(name) {
            Some(i) => {
                proof {
                    lemma_lookup_bounds(self@.names, name@);
                    assert(self@.tables[i as int] == self.tables@[i as int]@);
                    assert(self@.names.len() == self.names@.len());
                    assert(self@.tables.len() == self.tables@.len());
                }
                let r = &mut self.tables[i];
                Some(r)
            },
            None => None,
        }
    }

    /// Binds `name` to `table`, replacing any table already under that
    /// name.
    pub fn insert(&mut self, name: Vec<u8>, table: Table)
        requires
            old(self)@.wf(),
        ensures
            match spec_lookup(old(self)@.names, name@) {
                Some(i) => final(self)@.names == old(self)@.names && final(self)@.tables == old(
                    self,
                )@.tables.update(i, table@),
                None => final(self)@.names == old(self)@.names.push(name@) && final(self)@.tables
                    == old(self)@.tables.push(table@),
            },
    {
        let ghost tv = table@;
        match self.index_of(name.as_slice()) {
            Some(i) => {
                proof {
                    lemma_lookup_bounds(self@.names, name@);
                    assert(self@.names.len() == self.names@.len());
                    assert(self@.tables.len() == self.tables@.len());
                }
                let ghost before = self.tables.deep_view();
                self.tables.remove(i);
                self.tables.insert(i, table);
                proof {
                    assert(self.tables@.len() == before.len());
                    assert(forall|k: int|
                        0 <= k < self.tables@.len() ==> #[trigger] self.tables.deep_view()[k]
                            == self.tables@[k]@);
                    assert(self.tables@[i as int]@ == tv);
                    assert(forall|k: int|
                        0 <= k < before.len() && k != i ==> #[trigger] self.tables@[k]@
                            == before[k]);
                    assert(self.tables.deep_view() =~= before.update(i as int, tv));
                    assert(self.names.deep_view() == old(self).names.deep_view());
                }
            },
            None => {
                let ghost names_before = self.names.deep_view();
                let ghost tables_before = self.tables.deep_view();
                let ghost nv = name@;
                proof {
                    assert(names_before.len() == self.names@.len());
                    assert(tables_before.len() == self.tables@.len());
                    assert(forall|k: int|
                        0 <= k < names_before.len() ==> #[trigger] names_before[k]
                            == self.names@[k]@);
                    assert(forall|k: int|
                        0 <= k < tables_before.len() ==> #[trigger] tables_before[k]
                            == self.tables@[k]@);
                }
                self.names.push(name);
                self.tables.push(table);
                proof {
                    assert(forall|k: int|
                        0 <= k < self.names@.len() ==> #[trigger] self.names.deep_view()[k]
                            == self.names@[k]@);
                    assert(forall|k: int|
                        0 <= k < self.tables@.len() ==> #[trigger] self.tables.deep_view()[k]
                            == self.tables@[k]@);
                    assert(self.names.deep_view() =~= names_before.push(nv));
                    assert(self.tables.deep_view() =~= tables_before.push(tv));
                }
            },
        }
    }

    /// How many tables the catalog holds.
    pub fn len(&self) -> (r: usize)
        ensures
            r == self@.names.len(),
    {
        proof {
            assert(self@.names.len() == self.names@.len());
        }
        self.names.len()
    }
}

} // verus!
