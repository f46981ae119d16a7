//! Table schemas and a registry over them.

use vstd::prelude::*;

use crate::strutil;

verus! {

/// SQL data types a column may carry.
#[derive(Debug, Clone, Copy, PartialEq, Eq, Structural)]
pub enum SqlType {
    Integer,
    Float,
    Text,
    Boolean,
    Date,
    Timestamp,
}

/// A column definition.
pub struct ColumnDef {
    pub name: String,
    pub data_type: SqlType,
    pub nullable: bool,
}

/// A SQL table schema.
pub struct TableSchema {
    pub name: String,
    pub columns: Vec<ColumnDef>,
    pub primary_key: Option<Vec<String>>,
}

/// The names of a schema list, in order.
pub open spec fn schema_names(ss: Seq<TableSchema>) -> Seq<Seq<char>> {
    Seq::new(ss.len(), |i: int| ss[i].name@)
}

/// The first schema with the given name, or minus one.
pub open spec fn find_schema_index(ss: Seq<TableSchema>, name: Seq<char>) -> int
    decreases ss,
{
    if ss.len() == 0 {
        -1
    } else if ss[0].name@ == name {
        0
    } else if find_schema_index(ss.drop_first(), name) == -1 {
        -1
    } else {
        1 + find_schema_index(ss.drop_first(), name)
    }
}

pub proof fn lemma_find_schema_index(ss: Seq<TableSchema>, name: Seq<char>)
    ensures
        -1 <= find_schema_index(ss, name) < ss.len(),
        find_schema_index(ss, name) >= 0 ==> ss[find_schema_index(ss, name)].name@ == name,
        forall|k: int| 0 <= k < find_schema_index(ss, name) ==> ss[k].name@ != name,
        find_schema_index(ss, name) == -1 ==> forall|k: int|
            0 <= k < ss.len() ==> ss[k].name@ != name,
    decreases ss,
{
    if ss.len() == 0 {
    } else if ss[0].name@ == name {
    } else {
        lemma_find_schema_index(ss.drop_first(), name);
        let r = find_schema_index(ss.drop_first(), name);
        if r >= 0 {
            assert(ss[1 + r] == ss.drop_first()[r]);
            assert forall|k: int| 0 <= k < 1 + r implies ss[k].name@ != name by {
                if k > 0 {
                    assert(ss[k] == ss.drop_first()[k - 1]);
                }
            }
        } else {
            assert forall|k: int| 0 <= k < ss.len() implies ss[k].name@ != name by {
                if k > 0 {
                    assert(ss[k] == ss.drop_first()[k - 1]);
                }
            }
        }
    }
}

/// Registry of table schemas, keyed by table name.
pub struct TableManager {
    pub schemas: Vec<TableSchema>,
}

impl TableManager {
    /// Schema names are unique.
    pub open spec fn wf(self) -> bool {
        strutil::no_dup_seqs(schema_names(self.schemas@))
    }

    /// Creates an empty registry.
    pub fn new() -> (r: TableManager)
        ensures
            r.wf(),
            r.schemas@.len() == 0,
    {
        TableManager { schemas: Vec::new() }
    }

    /// Adds a schema, replacing any held schema of the same name.
    pub fn register_schema(&mut self, schema: TableSchema)
        requires
            old(self).wf(),
        ensures
            final(self).wf(),
            (find_schema_index(old(self).schemas@, schema.name@) == -1 ==> final(self).schemas@
                == old(self).schemas@.push(schema)),
            (find_schema_index(old(self).schemas@, schema.name@) >= 0 ==> final(self).schemas@
                == old(self).schemas@.update(
                find_schema_index(old(self).schemas@, schema.name@),
                schema,
            )),
    {
        proof {
            lemma_find_schema_index(self.schemas@, schema.name@);
        }
        let n: usize = self.schemas.len();
        let mut j: usize = 0;
        while j < n
            invariant
                self.schemas@ == old(self).schemas@,
                old(self).wf(),
                n == self.schemas@.len(),
                0 <= j <= n,
                forall|k: int| 0 <= k < j ==> (#[trigger] self.schemas@[k]).name@ != schema.name@,
            decreases n - j,
        {
            if strutil::str_eq(self.schemas[j].name.as_str(), schema.name.as_str()) {
                proof {
                    lemma_find_schema_index(self.schemas@, schema.name@);
                    let fi = find_schema_index(self.schemas@, schema.name@);
                    assert(self.schemas@[j as int].name@ == schema.name@);
                    if fi < j {
                        assert(self.schemas@[fi].name@ == schema.name@);
                        assert(false);
                    }
                    if fi > j {
                        assert(self.schemas@[j as int].name@ != schema.name@);
                        assert(false);
                    }
                }
                let ghost prev = self.schemas@;
                let ghost newname = schema.name@;
                let slot = &mut self.schemas[j];
                *slot = schema;
                proof {
                    assert(self.schemas@ =~= prev.update(j as int, self.schemas@[j as int]));
                    assert(strutil::no_dup_seqs(schema_names(self.schemas@))) by {
                        assert forall|a: int, b: int|
                            0 <= a < b < self.schemas@.len() implies schema_names(
                            self.schemas@,
                        )[a] != schema_names(self.schemas@)[b] by {
                            assert(schema_names(prev)[a] != schema_names(prev)[b]);
                            if a == j {
                                assert(self.schemas@[a].name@ == prev[a].name@);
                            }
                            if b == j {
                                assert(self.schemas@[b].name@ == prev[b].name@);
                            }
                        }
                    }
                }
                return ;
            }
            j = j + 1;
        }
        proof {
            lemma_find_schema_index(self.schemas@, schema.name@);
            let fi = find_schema_index(self.schemas@, schema.name@);
            if fi >= 0 {
                assert(self.schemas@[fi].name@ == schema.name@);
                assert(false);
            }
        }
        let ghost prev = self.schemas@;
        let ghost newname = schema.name@;
        self.schemas.push(schema);
        proof {
            assert(self.schemas@ =~= prev.push(self.schemas@[prev.len() as int]));
            assert(strutil::no_dup_seqs(schema_names(self.schemas@))) by {
                assert forall|a: int, b: int|
                    0 <= a < b < self.schemas@.len() implies schema_names(self.schemas@)[a]
                    != schema_names(self.schemas@)[b] by {
                    if b == self.schemas@.len() - 1 {
                        assert(schema_names(self.schemas@)[b] == newname);
                        assert(prev[a].name@ != newname);
                    } else {
                        assert(schema_names(prev)[a] != schema_names(prev)[b]);
                    }
                }
            }
        }
    }

    /// Every held table name, in held order.
    pub fn get_table_names(&self) -> (r: Vec<String>)
        ensures
            r.deep_view() == schema_names(self.schemas@),
    {
        let n: usize = self.schemas.len();
        let mut out: Vec<String> = Vec::new();
        let mut i: usize = 0;
        while i < n
            invariant
                n == self.schemas@.len(),
                0 <= i <= n,
                out@.len() == i,
                forall|j: int| 0 <= j < i ==> out.deep_view()[j] == schema_names(self.schemas@)[j],
            decreases n - i,
        {
            let ghost prevseq = out@;
            let ghost prevdv = out.deep_view();
            out.push(self.schemas[i].name.clone());
            proof {
                assert forall|j: int| 0 <= j < i + 1 implies out.deep_view()[j] == schema_names(
                    self.schemas@,
                )[j] by {
                    if j < i {
                        assert(out@[j] == prevseq[j]);
                        assert(out.deep_view()[j] == out@[j]@);
                        assert(prevdv[j] == prevseq[j]@);
                    } else {
                        assert(out.deep_view()[j] == self.schemas@[i as int].name@);
                    }
                }
            }
            i = i + 1;
        }
        proof {
            assert(out.deep_view() =~= schema_names(self.schemas@));
        }
        out
    }

    /// The schema under the given table name, if one is held.
    pub fn get_schema(&self, table_name: &str) -> (r: Option<&TableSchema>)
        ensures
            (match r {
                Option::Some(s) => find_schema_index(self.schemas@, table_name@) >= 0 && *s
                    == self.schemas@[find_schema_index(self.schemas@, table_name@)],
                Option::None => find_schema_index(self.schemas@, table_name@) == -1,
            }),
    {
        proof {
            lemma_find_schema_index(self.schemas@, table_name@);
        }
        let n: usize = self.schemas.len();
        let mut j: usize = 0;
        while j < n
            invariant
                n == self.schemas@.len(),
                0 <= j <= n,
                forall|k: int| 0 <= k < j ==> (#[trigger] self.schemas@[k]).name@ != table_name@,
            decreases n - j,
        {
            if strutil::str_eq(self.schemas[j].name.as_str(), table_name) {
                proof {
                    lemma_find_schema_index(self.schemas@, table_name@);
                    let fi = find_schema_index(self.schemas@, table_name@);
                    assert(self.schemas@[j as int].name@ == table_name@);
                    if fi < j {
                        assert(self.schemas@[fi].name@ == table_name@);
                        assert(false);
                    }
                    if fi > j {
                        assert(self.schemas@[j as int].name@ != table_name@);
                        assert(false);
                    }
                }
                return Option::Some(&self.schemas[j]);
            }
            j = j + 1;
        }
        proof {
            lemma_find_schema_index(self.schemas@, table_name@);
            let fi = find_schema_index(self.schemas@, table_name@);
            if fi >= 0 {
                assert(self.schemas@[fi].name@ == table_name@);
                assert(false);
            }
        }
        Option::None
    }

    /// The column names of the schema under the given table name.
    pub fn get_column_names(&self, table_name: &str) -> (r: Option<Vec<String>>)
        ensures
            (match r {
                Option::Some(names) => find_schema_index(self.schemas@, table_name@) >= 0
                    && names.deep_view() == Seq::new(
                    self.schemas@[find_schema_index(self.schemas@, table_name@)].columns@.len(),
                    |j: int| self.schemas@[find_schema_index(
                        self.schemas@,
                        table_name@,
                    )].columns@[j].name@,
                ),
                Option::None => find_schema_index(self.schemas@, table_name@) == -1,
            }),
    {
        match self.get_schema(table_name) {
            Option::Some(schema) => {
                let ghost cols = schema.columns@;
                let n: usize = schema.columns.len();
                let mut out: Vec<String> = Vec::new();
                let mut i: usize = 0;
                while i < n
                    invariant
                        cols == schema.columns@,
                        n == cols.len(),
                        0 <= i <= n,
                        out@.len() == i,
                        forall|j: int| 0 <= j < i ==> out.deep_view()[j] == cols[j].name@,
                    decreases n - i,
                {
                    let ghost prevseq = out@;
                    let ghost prevdv = out.deep_view();
                    out.push(schema.columns[i].name.clone());
                    proof {
                        assert forall|j: int| 0 <= j < i + 1 implies out.deep_view()[j]
                            == cols[j].name@ by {
                            if j < i {
                                assert(out@[j] == prevseq[j]);
                                assert(out.deep_view()[j] == out@[j]@);
                                assert(prevdv[j] == prevseq[j]@);
                            } else {
                                assert(out.deep_view()[j] == cols[i as int].name@);
                            }
                        }
                    }
                    i = i + 1;
                }
                proof {
                    assert(out.deep_view() =~= Seq::new(cols.len(), |j: int| cols[j].name@));
                }
                Option::Some(out)
            },
            Option::None => Option::None,
        }
    }
}

} // verus!
