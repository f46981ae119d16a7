//! The model collection: every record, the dependency graph over them, the
//! declared imports, and what failed to resolve.

use vstd::prelude::*;
use vstd::string::StrSliceExecFns;
use vstd::string::StringExecFns;

use crate::model::SqlModel;
use crate::model::YamlSourceData;
use crate::strutil;

verus! {

/// The `<schema>.<name>` key a model publishes its output under; the schema
/// defaults to `public`.
pub open spec fn table_key(m: SqlModel) -> Seq<char> {
    (match m.schema {
        Option::Some(s) => s@,
        Option::None => "public"@,
    }) + "."@ + m.name@
}

/// The first model whose table key equals `name`, or minus one.
pub open spec fn resolve(ms: Seq<SqlModel>, name: Seq<char>) -> int
    decreases ms,
{
    if ms.len() == 0 {
        -1
    } else if table_key(ms[0]) == name {
        0
    } else if resolve(ms.drop_first(), name) == -1 {
        -1
    } else {
        1 + resolve(ms.drop_first(), name)
    }
}

pub proof fn lemma_resolve(ms: Seq<SqlModel>, name: Seq<char>)
    ensures
        -1 <= resolve(ms, name) < ms.len(),
        resolve(ms, name) >= 0 ==> table_key(ms[resolve(ms, name)]) == name,
        forall|k: int| 0 <= k < resolve(ms, name) ==> table_key(ms[k]) != name,
        resolve(ms, name) == -1 ==> forall|k: int| 0 <= k < ms.len() ==> table_key(ms[k]) != name,
    decreases ms,
{
    if ms.len() == 0 {
    } else if table_key(ms[0]) == name {
    } else {
        lemma_resolve(ms.drop_first(), name);
        let r = resolve(ms.drop_first(), name);
        if r >= 0 {
            assert(ms[1 + r] == ms.drop_first()[r]);
            assert forall|k: int| 0 <= k < 1 + r implies table_key(ms[k]) != name by {
                if k > 0 {
                    assert(ms[k] == ms.drop_first()[k - 1]);
                }
            }
        } else {
            assert forall|k: int| 0 <= k < ms.len() implies table_key(ms[k]) != name by {
                if k > 0 {
                    assert(ms[k] == ms.drop_first()[k - 1]);
                }
            }
        }
    }
}

/// Every model carries its own unique id.
pub open spec fn ids_unique(ms: Seq<SqlModel>) -> bool {
    forall|i: int, j: int| 0 <= i < j < ms.len() ==> ms[i].unique_id@ != ms[j].unique_id@
}

/// Every id a model lists upstream or downstream names a model of the
/// collection.
pub open spec fn neighbour_ids_exist(ms: Seq<SqlModel>) -> bool {
    forall|i: int, u: Seq<char>|
        0 <= i < ms.len() && (ms[i].upstream_models.deep_view().contains(u)
            || ms[i].downstream_models.deep_view().contains(u)) ==> exists|j: int|
            0 <= j < ms.len() && #[trigger] ms[j].unique_id@ == u
}

/// Whether a parent-to-child edge stands between two positions: some
/// reference of the child resolves to the parent.
pub open spec fn is_edge(ms: Seq<SqlModel>, p: int, c: int) -> bool {
    &&& 0 <= p < ms.len()
    &&& 0 <= c < ms.len()
    &&& exists|r: Seq<char>|
        #[trigger] ms[c].referenced_tables.deep_view().contains(r) && resolve(ms, r) == p
}

/// Collection of all parsed SQL models and the graph built over them.
pub struct SqlModelCollection {
    pub models: Vec<SqlModel>,
    pub edges: Vec<(usize, usize)>,
    pub defined_imports: Vec<String>,
    pub missing_imports: Vec<(String, Vec<String>)>,
}

impl SqlModelCollection {
    /// Well-formedness: ids are unique, the records are well-formed, edge
    /// endpoints are in range, and neighbour ids name models.
    pub open spec fn wf(self) -> bool {
        &&& ids_unique(self.models@)
        &&& (forall|i: int| 0 <= i < self.models@.len() ==> (#[trigger] self.models@[i]).wf())
        &&& (forall|k: int|
            0 <= k < self.edges@.len() ==> (#[trigger] self.edges@[k]).0 < self.models@.len()
                && self.edges@[k].1 < self.models@.len())
        &&& neighbour_ids_exist(self.models@)
        &&& strutil::no_dup_seqs(self.defined_imports.deep_view())
    }

    /// Creates an empty collection.
    pub fn new() -> (r: SqlModelCollection)
        ensures
            r.wf(),
            r.models@.len() == 0,
            r.edges@.len() == 0,
            r.defined_imports@.len() == 0,
            r.missing_imports@.len() == 0,
    {
        SqlModelCollection {
            models: Vec::new(),
            edges: Vec::new(),
            defined_imports: Vec::new(),
            missing_imports: Vec::new(),
        }
    }

    /// The number of models held.
    pub fn models_count(&self) -> (r: usize)
        ensures
            r == self.models@.len(),
    {
        self.models.len()
    }

    /// The position of the model with the given id, if one is held.
    fn find_index(&self, id: &str) -> (r: Option<usize>)
        ensures
            (match r {
                Option::Some(j) => j < self.models@.len() && self.models@[j as int].unique_id@
                    == id@ && (forall|k: int|
                    0 <= k < j ==> (#[trigger] self.models@[k]).unique_id@ != id@),
                Option::None => forall|j: int|
                    0 <= j < self.models@.len() ==> (#[trigger] self.models@[j]).unique_id@ != id@,
            }),
    {
        let n: usize = self.models.len();
        let mut j: usize = 0;
        while j < n
            invariant
                n == self.models@.len(),
                0 <= j <= n,
                forall|k: int| 0 <= k < j ==> (#[trigger] self.models@[k]).unique_id@ != id@,
            decreases n - j,
        {
            if strutil::str_eq(self.models[j].unique_id.as_str(), id) {
                return Option::Some(j);
            }
            j = j + 1;
        }
        Option::None
    }

    /// Adds a model, replacing any held model with the same unique id.
    pub fn add_model(&mut self, model: SqlModel)
        requires
            old(self).wf(),
            model.wf(),
            model.upstream_models@.len() == 0,
            model.downstream_models@.len() == 0,
        ensures
            final(self).wf(),
            final(self).edges == old(self).edges,
            final(self).defined_imports == old(self).defined_imports,
            final(self).missing_imports == old(self).missing_imports,
            (match find_id(old(self).models@, model.unique_id@) {
                Option::Some(j) => final(self).models@ == old(self).models@.update(j, model),
                Option::None => final(self).models@ == old(self).models@.push(model),
            }),
    {
        proof {
            lemma_find_id(self.models@, model.unique_id@);
        }
        match self.find_index(model.unique_id.as_str()) {
            Option::Some(j) => {
                proof {
                    let fi = find_id(self.models@, model.unique_id@);
                    match fi {
                        Option::Some(fj) => {
                            if fj != j {
                                assert(self.models@[fj].unique_id@ == model.unique_id@);
                                assert(false);
                            }
                        },
                        Option::None => {
                            assert(false);
                        },
                    }
                }
                let ghost oldms = self.models@;
                let slot = &mut self.models[j];
                *slot = model;
                proof {
                    assert(self.models@ =~= oldms.update(j as int, model));
                    assert(ids_unique(self.models@)) by {
                        assert forall|a: int, b: int|
                            0 <= a < b < self.models@.len() implies self.models@[a].unique_id@
                            != self.models@[b].unique_id@ by {
                            assert(oldms[a].unique_id@ != oldms[b].unique_id@);
                            if a == j {
                                assert(self.models@[a].unique_id@ == oldms[j as int].unique_id@);
                            }
                            if b == j {
                                assert(self.models@[b].unique_id@ == oldms[j as int].unique_id@);
                            }
                        }
                    }
                    assert(neighbour_ids_exist(self.models@)) by {
                        assert forall|i: int, u: Seq<char>|
                            0 <= i < self.models@.len() && (self.models@[i].upstream_models.deep_view().contains(
                                u,
                            ) || self.models@[i].downstream_models.deep_view().contains(u))
                            implies exists|jj: int|
                                0 <= jj < self.models@.len()
                                    && #[trigger] self.models@[jj].unique_id@ == u by {
                            assert(i != j);
                            assert(self.models@[i] == oldms[i]);
                            let jj = choose|jj: int|
                                0 <= jj < oldms.len() && #[trigger] oldms[jj].unique_id@ == u;
                            if jj == j {
                                assert(self.models@[j as int].unique_id@ == u);
                            } else {
                                assert(self.models@[jj].unique_id@ == u);
                            }
                        }
                    }
                }
            },
            Option::None => {
                proof {
                    let fi = find_id(self.models@, model.unique_id@);
                    match fi {
                        Option::Some(fj) => {
                            assert(self.models@[fj].unique_id@ == model.unique_id@);
                            assert(false);
                        },
                        Option::None => {
                        },
                    }
                }
                let ghost oldms = self.models@;
                self.models.push(model);
                proof {
                    assert(self.models@ =~= oldms.push(model));
                    assert(neighbour_ids_exist(self.models@)) by {
                        assert forall|i: int, u: Seq<char>|
                            0 <= i < self.models@.len() && (self.models@[i].upstream_models.deep_view().contains(
                                u,
                            ) || self.models@[i].downstream_models.deep_view().contains(u))
                            implies exists|jj: int|
                                0 <= jj < self.models@.len()
                                    && #[trigger] self.models@[jj].unique_id@ == u by {
                            assert(i < oldms.len());
                            assert(self.models@[i] == oldms[i]);
                            let jj = choose|jj: int|
                                0 <= jj < oldms.len() && #[trigger] oldms[jj].unique_id@ == u;
                            assert(self.models@[jj].unique_id@ == u);
                        }
                    }
                }
            },
        }
    }

    /// Returns the model with the given unique id, if one is held.
    pub fn get_model(&self, id: &str) -> (r: Option<&SqlModel>)
        ensures
            (match r {
                Option::Some(m) => exists|j: int|
                    0 <= j < self.models@.len() && *m == #[trigger] self.models@[j]
                        && m.unique_id@ == id@,
                Option::None => forall|j: int|
                    0 <= j < self.models@.len() ==> (#[trigger] self.models@[j]).unique_id@ != id@,
            }),
    {
        match self.find_index(id) {
            Option::Some(j) => {
                let m = &self.models[j];
                proof {
                    assert(*m == self.models@[j as int]);
                }
                Option::Some(m)
            },
            Option::None => Option::None,
        }
    }

    /// Declares the given sources as known imports: each table under a
    /// source is recorded as `<database>.<table>`.
    pub fn add_import_definitions(&mut self, sources: Vec<YamlSourceData>)
        requires
            old(self).wf(),
        ensures
            final(self).wf(),
            final(self).models == old(self).models,
            final(self).edges == old(self).edges,
            final(self).missing_imports == old(self).missing_imports,
            forall|x: Seq<char>|
                #[trigger] final(self).defined_imports.deep_view().contains(x) <==> (old(
                    self,
                ).defined_imports.deep_view().contains(x) || declares_import(sources@, x)),
    {
        let ns: usize = sources.len();
        let mut si: usize = 0;
        while si < ns
            invariant
                old(self).wf(),
                self.models == old(self).models,
                self.edges == old(self).edges,
                self.missing_imports == old(self).missing_imports,
                strutil::no_dup_seqs(self.defined_imports.deep_view()),
                ns == sources@.len(),
                0 <= si <= ns,
                forall|x: Seq<char>|
                    #[trigger] self.defined_imports.deep_view().contains(x) <==> (old(
                        self,
                    ).defined_imports.deep_view().contains(x) || declares_import(
                        sources@.take(si as int),
                        x,
                    )),
            decreases ns - si,
        {
            let src = &sources[si];
            let nt: usize = src.tables.len();
            let mut ti: usize = 0;
            while ti < nt
                invariant
                    old(self).wf(),
                    self.models == old(self).models,
                    self.edges == old(self).edges,
                    self.missing_imports == old(self).missing_imports,
                    strutil::no_dup_seqs(self.defined_imports.deep_view()),
                    ns == sources@.len(),
                    0 <= si < ns,
                    nt == sources@[si as int].tables@.len(),
                    0 <= ti <= nt,
                    src == &sources[si as int],
                    forall|x: Seq<char>|
                        #[trigger] self.defined_imports.deep_view().contains(x) <==> (old(
                            self,
                        ).defined_imports.deep_view().contains(x) || declares_import(
                            sources@.take(si as int),
                            x,
                        ) || (exists|t: int|
                            0 <= t < ti && x == import_name(
                                sources@[si as int].database@,
                                #[trigger] sources@[si as int].tables.deep_view()[t],
                            ))),
                decreases nt - ti,
            {
                let mut entry = src.database.clone();
                entry = entry.concat(".");
                entry = entry.concat(src.tables[ti].as_str());
                proof {
                    assert(entry@ =~= import_name(
                        sources@[si as int].database@,
                        sources@[si as int].tables.deep_view()[ti as int],
                    ));
                }
                let ghost prev = self.defined_imports.deep_view();
                let ghost ev = entry@;
                strutil::push_unique(&mut self.defined_imports, entry);
                proof {
                    let cur = self.defined_imports.deep_view();
                    assert forall|x: Seq<char>| #[trigger] cur.contains(x) <==> (prev.contains(x)
                        || x == ev) by {
                        if prev.contains(ev) {
                            assert(cur == prev);
                        } else {
                            assert(cur == prev.push(ev));
                            if cur.contains(x) {
                                let ix = choose|ix: int| 0 <= ix < cur.len() && cur[ix] == x;
                                if ix < prev.len() {
                                    assert(prev[ix] == x);
                                } else {
                                    assert(x == ev);
                                }
                            }
                            if prev.contains(x) {
                                let ix = choose|ix: int| 0 <= ix < prev.len() && prev[ix] == x;
                                assert(cur[ix] == x);
                            }
                            if x == ev {
                                assert(cur[prev.len() as int] == ev);
                            }
                        }
                    }
                    assert forall|x: Seq<char>| #[trigger] cur.contains(x) implies (old(
                        self,
                    ).defined_imports.deep_view().contains(x) || declares_import(
                        sources@.take(si as int),
                        x,
                    ) || (exists|t: int|
                        0 <= t < ti + 1 && x == import_name(
                            sources@[si as int].database@,
                            #[trigger] sources@[si as int].tables.deep_view()[t],
                        ))) by {
                        if x == ev {
                            assert(x == import_name(
                                sources@[si as int].database@,
                                sources@[si as int].tables.deep_view()[ti as int],
                            ));
                        }
                    }
                    assert forall|x: Seq<char>| (old(self).defined_imports.deep_view().contains(x)
                        || declares_import(sources@.take(si as int), x) || (exists|t: int|
                        0 <= t < ti + 1 && x == import_name(
                            sources@[si as int].database@,
                            #[trigger] sources@[si as int].tables.deep_view()[t],
                        ))) implies #[trigger] cur.contains(x) by {
                        if old(self).defined_imports.deep_view().contains(x) || declares_import(
                            sources@.take(si as int),
                            x,
                        ) {
                            assert(prev.contains(x));
                        } else {
                            let t = choose|t: int|
                                0 <= t < ti + 1 && x == import_name(
                                    sources@[si as int].database@,
                                    #[trigger] sources@[si as int].tables.deep_view()[t],
                                );
                            if t < ti {
                                assert(prev.contains(x));
                            } else {
                                assert(x == ev);
                            }
                        }
                    }
                }
                ti = ti + 1;
            }
            proof {
                assert(sources@.take(si + 1).drop_last() =~= sources@.take(si as int));
                assert(sources@.take(si + 1).last() == sources@[si as int]);
            }
            si = si + 1;
        }
        proof {
            assert(sources@.take(ns as int) =~= sources@);
        }
    }
}

/// The qualified name an imports catalog entry declares.
pub open spec fn import_name(database: Seq<char>, table: Seq<char>) -> Seq<char> {
    database + "."@ + table
}

/// Whether some source of the list declares the qualified name `x`.
pub open spec fn declares_import(sources: Seq<YamlSourceData>, x: Seq<char>) -> bool
    decreases sources,
{
    if sources.len() == 0 {
        false
    } else {
        declares_import(sources.drop_last(), x) || (exists|t: int|
            0 <= t < sources.last().tables@.len() && x == import_name(
                sources.last().database@,
                #[trigger] sources.last().tables.deep_view()[t],
            ))
    }
}

/// The first model of a list carrying the given unique id.
pub open spec fn find_id(ms: Seq<SqlModel>, id: Seq<char>) -> Option<int>
    decreases ms,
{
    if ms.len() == 0 {
        Option::None
    } else if ms[0].unique_id@ == id {
        Option::Some(0int)
    } else {
        match find_id(ms.drop_first(), id) {
            Option::Some(j) => Option::Some(1 + j),
            Option::None => Option::None,
        }
    }
}

pub proof fn lemma_find_id(ms: Seq<SqlModel>, id: Seq<char>)
    ensures
        (match find_id(ms, id) {
            Option::Some(j) => 0 <= j < ms.len() && ms[j].unique_id@ == id && (forall|k: int|
                0 <= k < j ==> ms[k].unique_id@ != id),
            Option::None => forall|k: int| 0 <= k < ms.len() ==> ms[k].unique_id@ != id,
        }),
    decreases ms,
{
    if ms.len() == 0 {
    } else if ms[0].unique_id@ == id {
    } else {
        lemma_find_id(ms.drop_first(), id);
        match find_id(ms.drop_first(), id) {
            Option::Some(j) => {
                assert(ms[1 + j] == ms.drop_first()[j]);
                assert forall|k: int| 0 <= k < 1 + j implies ms[k].unique_id@ != id by {
                    if k > 0 {
                        assert(ms[k] == ms.drop_first()[k - 1]);
                    }
                }
            },
            Option::None => {
                assert forall|k: int| 0 <= k < ms.len() implies ms[k].unique_id@ != id by {
                    if k > 0 {
                        assert(ms[k] == ms.drop_first()[k - 1]);
                    }
                }
            },
        }
    }
}

// ----------------------------------------------------------------------
// Depth assignment.
// ----------------------------------------------------------------------

/// How many models already carry a depth.
pub open spec fn count_assigned(ms: Seq<SqlModel>) -> int
    decreases ms,
{
    if ms.len() == 0 {
        0
    } else {
        count_assigned(ms.drop_last()) + (if ms.last().depth is Some {
            1int
        } else {
            0
        })
    }
}

pub proof fn lemma_count_assigned_bounds(ms: Seq<SqlModel>)
    ensures
        0 <= count_assigned(ms) <= ms.len(),
    decreases ms,
{
    if ms.len() > 0 {
        lemma_count_assigned_bounds(ms.drop_last());
    }
}

/// A model with a depth makes the count positive.
pub proof fn lemma_count_assigned_lower(ms: Seq<SqlModel>, i: int)
    requires
        0 <= i < ms.len(),
        ms[i].depth is Some,
    ensures
        count_assigned(ms) >= 1,
    decreases ms,
{
    lemma_count_assigned_bounds(ms.drop_last());
    if i == ms.len() - 1 {
    } else {
        assert(ms.drop_last()[i] == ms[i]);
        lemma_count_assigned_lower(ms.drop_last(), i);
    }
}

/// Updating one model changes the count by the difference of the two
/// assignment states.
pub proof fn lemma_count_assigned_update(ms: Seq<SqlModel>, i: int, m2: SqlModel)
    requires
        0 <= i < ms.len(),
    ensures
        count_assigned(ms.update(i, m2)) == count_assigned(ms) + (if m2.depth is Some {
            1int
        } else {
            0
        }) - (if ms[i].depth is Some {
            1int
        } else {
            0
        }),
    decreases ms,
{
    let ms2 = ms.update(i, m2);
    if i == ms.len() - 1 {
        assert(ms2.drop_last() =~= ms.drop_last());
        assert(ms2.last() == m2);
    } else {
        assert(ms2.drop_last() =~= ms.drop_last().update(i, m2));
        assert(ms2.last() == ms.last());
        lemma_count_assigned_update(ms.drop_last(), i, m2);
        assert(ms.drop_last()[i] == ms[i]);
    }
}

/// The depth of the model with the given id, where one is held.
pub open spec fn depth_of_id(ms: Seq<SqlModel>, u: Seq<char>) -> Option<usize> {
    match find_id(ms, u) {
        Option::Some(j) => ms[j].depth,
        Option::None => Option::None,
    }
}

/// What depth assignment guarantees of every model.
///
/// A model without internal upstreams has depth zero, and only those do; a
/// model with a positive depth `d` has every upstream assigned a depth of at
/// most `d - 1` and some upstream assigned exactly `d - 1`; a model left
/// without a depth has an upstream left without one — it sits in or below a
/// cycle.
pub open spec fn depths_assigned(ms: Seq<SqlModel>) -> bool {
    &&& (forall|i: int|
        0 <= i < ms.len() ==> ((#[trigger] ms[i].upstream_models@.len() == 0) <==> ms[i].depth
            == Option::Some(0usize)))
    &&& (forall|i: int|
        0 <= i < ms.len() && (#[trigger] ms[i].depth) is Some && ms[i].depth->0 > 0 ==> {
            let d = ms[i].depth->0;
            &&& (forall|u: Seq<char>|
                #[trigger] ms[i].upstream_models.deep_view().contains(u) ==> depth_of_id(ms, u) is Some
                    && depth_of_id(ms, u)->0 <= d - 1)
            &&& (exists|u: Seq<char>|
                #[trigger] ms[i].upstream_models.deep_view().contains(u) && depth_of_id(ms, u)
                    == Option::Some((d - 1) as usize))
        })
    &&& (forall|i: int|
        0 <= i < ms.len() && (#[trigger] ms[i].depth) is None ==> exists|u: Seq<char>|
            #[trigger] ms[i].upstream_models.deep_view().contains(u) && depth_of_id(ms, u) is None)
}

/// The same record up to its assigned depth.
pub open spec fn same_but_depth(a: SqlModel, b: SqlModel) -> bool {
    a == (SqlModel { depth: a.depth, ..b })
}

/// Ids upstream of any model name a model of the list.
pub open spec fn upstream_ids_exist(ms: Seq<SqlModel>) -> bool {
    forall|i: int, u: Seq<char>|
        0 <= i < ms.len() && #[trigger] ms[i].upstream_models.deep_view().contains(u)
            ==> find_id(ms, u) is Some
}

/// With unique ids, any position carrying the id is the one `find_id` names.
pub proof fn lemma_find_id_unique(ms: Seq<SqlModel>, u: Seq<char>, j: int)
    requires
        ids_unique(ms),
        0 <= j < ms.len(),
        ms[j].unique_id@ == u,
    ensures
        find_id(ms, u) == Option::Some(j),
{
    lemma_find_id(ms, u);
    match find_id(ms, u) {
        Option::Some(j2) => {
            if j2 != j {
                if j2 < j {
                    assert(ms[j2].unique_id@ != ms[j].unique_id@);
                } else {
                    assert(ms[j].unique_id@ != ms[j2].unique_id@);
                }
                assert(false);
            }
        },
        Option::None => {
            assert(ms[j].unique_id@ != u);
            assert(false);
        },
    }
}

/// `find_id` does not see an update that keeps the id.
pub proof fn lemma_find_id_update(ms: Seq<SqlModel>, i: int, m2: SqlModel, u: Seq<char>)
    requires
        0 <= i < ms.len(),
        m2.unique_id@ == ms[i].unique_id@,
    ensures
        find_id(ms.update(i, m2), u) == find_id(ms, u),
    decreases ms,
{
    let ms2 = ms.update(i, m2);
    assert(ms2.len() == ms.len());
    if i == 0 {
        assert(ms2[0] == m2);
        assert(ms2.drop_first() =~= ms.drop_first());
    } else {
        assert(ms2[0] == ms[0]);
        assert(ms2.drop_first() =~= ms.drop_first().update(i - 1, m2));
        assert(ms.drop_first()[i - 1] == ms[i]);
        lemma_find_id_update(ms.drop_first(), i - 1, m2, u);
    }
}

/// A depth-only update keeps ids, uniqueness, the upstream wiring and the
/// lookup function.
pub proof fn lemma_depth_update_preserves(ms: Seq<SqlModel>, i: int, m2: SqlModel)
    requires
        0 <= i < ms.len(),
        same_but_depth(m2, ms[i]),
    ensures
        forall|j: int| 0 <= j < ms.len() && j != i ==> ms.update(i, m2)[j] == ms[j],
        ms.update(i, m2)[i] == m2,
        m2.unique_id == ms[i].unique_id,
        m2.upstream_models == ms[i].upstream_models,
        ids_unique(ms) ==> ids_unique(ms.update(i, m2)),
        upstream_ids_exist(ms) ==> upstream_ids_exist(ms.update(i, m2)),
        forall|u: Seq<char>| find_id(ms.update(i, m2), u) == find_id(ms, u),
{
    let ms2 = ms.update(i, m2);
    assert forall|u: Seq<char>| find_id(ms2, u) == find_id(ms, u) by {
        lemma_find_id_update(ms, i, m2, u);
    }
    if ids_unique(ms) {
        assert forall|a: int, b: int| 0 <= a < b < ms2.len() implies ms2[a].unique_id@
            != ms2[b].unique_id@ by {
            assert(ms[a].unique_id@ != ms[b].unique_id@);
        }
    }
    if upstream_ids_exist(ms) {
        assert forall|j: int, u: Seq<char>|
            0 <= j < ms2.len() && #[trigger] ms2[j].upstream_models.deep_view().contains(u)
            implies find_id(ms2, u) is Some by {
            assert(ms2[j].upstream_models == ms[j].upstream_models);
            assert(ms[j].upstream_models.deep_view().contains(u));
        }
    }
}

/// The invariant the relaxation loop maintains: depth-only changes, zero
/// exactly for sources, the downward-looking property of every positive
/// depth, and a strict count bound on every assigned depth.
pub open spec fn relax_inv(oms: Seq<SqlModel>, ms: Seq<SqlModel>) -> bool {
    &&& ms.len() == oms.len()
    &&& (forall|i: int| 0 <= i < ms.len() ==> same_but_depth(#[trigger] ms[i], oms[i]))
    &&& ids_unique(ms)
    &&& upstream_ids_exist(ms)
    &&& (forall|i: int|
        0 <= i < ms.len() ==> ((#[trigger] ms[i].upstream_models@.len() == 0) <==> ms[i].depth
            == Option::Some(0usize)))
    &&& (forall|i: int|
        0 <= i < ms.len() && (#[trigger] ms[i].depth) is Some && ms[i].depth->0 > 0 ==> {
            let d = ms[i].depth->0;
            &&& (forall|u: Seq<char>|
                #[trigger] ms[i].upstream_models.deep_view().contains(u) ==> depth_of_id(ms, u) is Some
                    && depth_of_id(ms, u)->0 <= d - 1)
            &&& (exists|u: Seq<char>|
                #[trigger] ms[i].upstream_models.deep_view().contains(u) && depth_of_id(ms, u)
                    == Option::Some((d - 1) as usize))
        })
    &&& (forall|i: int|
        0 <= i < ms.len() && (#[trigger] ms[i].depth) is Some ==> ms[i].depth->0 < count_assigned(
            ms,
        ))
}

impl SqlModelCollection {
    /// Looks over every upstream of the model at `i`: whether all carry a
    /// depth, and if so the largest of those depths.
    fn max_upstream_depth(&self, i: usize) -> (r: (bool, usize))
        requires
            i < self.models@.len(),
            self.models@[i as int].upstream_models@.len() > 0,
            ids_unique(self.models@),
            upstream_ids_exist(self.models@),
            forall|j: int|
                0 <= j < self.models@.len() && (#[trigger] self.models@[j].depth) is Some
                    ==> self.models@[j].depth->0 < count_assigned(self.models@),
        ensures
            r.0 ==> (forall|u: Seq<char>|
                #[trigger] self.models@[i as int].upstream_models.deep_view().contains(u)
                    ==> depth_of_id(self.models@, u) is Some && depth_of_id(self.models@, u)->0
                    <= r.1),
            r.0 ==> (exists|u: Seq<char>|
                #[trigger] self.models@[i as int].upstream_models.deep_view().contains(u)
                    && depth_of_id(self.models@, u) == Option::Some(r.1)),
            r.0 ==> r.1 < count_assigned(self.models@),
            !r.0 ==> (exists|u: Seq<char>|
                #[trigger] self.models@[i as int].upstream_models.deep_view().contains(u)
                    && depth_of_id(self.models@, u) is None),
    {
        let ghost ms = self.models@;
        let nu: usize = self.models[i].upstream_models.len();
        let mut maxd: usize = 0;
        let mut t: usize = 0;
        while t < nu
            invariant
                i < ms.len(),
                self.models@ == ms,
                ids_unique(ms),
                upstream_ids_exist(ms),
                forall|j: int|
                    0 <= j < ms.len() && (#[trigger] ms[j].depth) is Some ==> ms[j].depth->0
                        < count_assigned(ms),
                nu == ms[i as int].upstream_models@.len(),
                0 < nu,
                0 <= t <= nu,
                forall|k: int|
                    0 <= k < t ==> depth_of_id(
                        ms,
                        #[trigger] ms[i as int].upstream_models.deep_view()[k],
                    ) is Some && depth_of_id(ms, ms[i as int].upstream_models.deep_view()[k])->0
                        <= maxd,
                t > 0 ==> exists|k: int|
                    0 <= k < t && depth_of_id(
                        ms,
                        #[trigger] ms[i as int].upstream_models.deep_view()[k],
                    ) == Option::Some(maxd),
                t > 0 ==> maxd < count_assigned(ms),
                t == 0 ==> maxd == 0,
            decreases nu - t,
        {
            let u = &self.models[i].upstream_models[t];
            proof {
                assert(ms[i as int].upstream_models.deep_view()[t as int] == u@);
                assert(ms[i as int].upstream_models.deep_view().contains(u@));
            }
            match self.find_index(u.as_str()) {
                Option::Some(j) => {
                    proof {
                        lemma_find_id_unique(ms, u@, j as int);
                    }
                    match self.models[j].depth {
                        Option::Some(d) => {
                            proof {
                                assert(depth_of_id(ms, u@) == Option::Some(d));
                            }
                            if t == 0 || d > maxd {
                                maxd = d;
                            }
                            proof {
                                assert(maxd < count_assigned(ms));
                            }
                        },
                        Option::None => {
                            proof {
                                assert(depth_of_id(ms, u@) is None);
                            }
                            return (false, 0);
                        },
                    }
                },
                Option::None => {
                    proof {
                        lemma_find_id(ms, u@);
                        assert(find_id(ms, u@) is Some);
                        match find_id(ms, u@) {
                            Option::Some(j0) => {
                                assert(ms[j0].unique_id@ == u@);
                                assert(false);
                            },
                            Option::None => {
                            },
                        }
                    }
                    return (false, 0);
                },
            }
            t = t + 1;
        }
        proof {
            assert forall|u: Seq<char>|
                #[trigger] ms[i as int].upstream_models.deep_view().contains(u) implies depth_of_id(
                ms,
                u,
            ) is Some && depth_of_id(ms, u)->0 <= maxd by {
                let k = choose|k: int|
                    0 <= k < ms[i as int].upstream_models.deep_view().len()
                        && ms[i as int].upstream_models.deep_view()[k] == u;
            }
            let k0 = choose|k: int|
                0 <= k < nu && depth_of_id(ms, #[trigger] ms[i as int].upstream_models.deep_view()[k])
                    == Option::Some(maxd);
            assert(ms[i as int].upstream_models.deep_view().contains(
                ms[i as int].upstream_models.deep_view()[k0],
            ));
        }
        (true, maxd)
    }

    /// Assigns every model its depth: zero for sources, one more than the
    /// largest upstream depth otherwise, by iterated relaxation; models in or
    /// below a cycle keep no depth.
    pub fn calculate_model_depths(&mut self)
        requires
            old(self).wf(),
        ensures
            final(self).wf(),
            final(self).edges == old(self).edges,
            final(self).defined_imports == old(self).defined_imports,
            final(self).missing_imports == old(self).missing_imports,
            final(self).models@.len() == old(self).models@.len(),
            forall|i: int|
                0 <= i < old(self).models@.len() ==> same_but_depth(
                    #[trigger] final(self).models@[i],
                    old(self).models@[i],
                ),
            depths_assigned(final(self).models@),
    {
        let ghost oms = self.models@;
        let n: usize = self.models.len();
        // sources get depth zero, everything else none
        let mut i: usize = 0;
        while i < n
            invariant
                old(self).wf(),
                self.edges == old(self).edges,
                self.defined_imports == old(self).defined_imports,
                self.missing_imports == old(self).missing_imports,
                oms == old(self).models@,
                n == self.models@.len(),
                n == oms.len(),
                0 <= i <= n,
                forall|k: int| i <= k < n ==> self.models@[k] == oms[k],
                forall|k: int|
                    0 <= k < i ==> same_but_depth(#[trigger] self.models@[k], oms[k]),
                forall|k: int|
                    0 <= k < i ==> ((#[trigger] self.models@[k].upstream_models@.len() == 0)
                        <==> self.models@[k].depth == Option::Some(0usize)),
                forall|k: int|
                    0 <= k < i && (#[trigger] self.models@[k].depth) is Some
                        ==> self.models@[k].depth->0 == 0,
            decreases n - i,
        {
            let ghost before = self.models@;
            let zero = self.models[i].upstream_models.len() == 0;
            let m = &mut self.models[i];
            if zero {
                m.depth = Option::Some(0);
            } else {
                m.depth = Option::None;
            }
            proof {
                assert(self.models@ =~= before.update(
                    i as int,
                    self.models@[i as int],
                ));
                assert(same_but_depth(self.models@[i as int], oms[i as int]));
            }
            i = i + 1;
        }
        proof {
            let ms = self.models@;
            assert forall|k: int| 0 <= k < n implies (#[trigger] ms[k].depth) is Some
                ==> ms[k].depth->0 < count_assigned(ms) by {
                if ms[k].depth is Some {
                    lemma_count_assigned_lower(ms, k);
                }
            }
            assert(ids_unique(ms)) by {
                assert forall|a: int, b: int| 0 <= a < b < ms.len() implies ms[a].unique_id@
                    != ms[b].unique_id@ by {
                    assert(oms[a].unique_id@ != oms[b].unique_id@);
                }
            }
            assert(upstream_ids_exist(ms)) by {
                assert forall|a: int, u: Seq<char>|
                    0 <= a < ms.len() && #[trigger] ms[a].upstream_models.deep_view().contains(u)
                    implies find_id(ms, u) is Some by {
                    assert(ms[a].upstream_models == oms[a].upstream_models);
                    assert(oms[a].upstream_models.deep_view().contains(u));
                    let j = choose|j: int| 0 <= j < oms.len() && #[trigger] oms[j].unique_id@ == u;
                    assert(ms[j].unique_id@ == u);
                    lemma_find_id_unique(ms, u, j);
                }
            }
            assert(relax_inv(oms, ms));
        }
        // relax until a full pass changes nothing
        let mut changed = true;
        while changed
            invariant
                old(self).wf(),
                self.edges == old(self).edges,
                self.defined_imports == old(self).defined_imports,
                self.missing_imports == old(self).missing_imports,
                oms == old(self).models@,
                n == self.models@.len(),
                relax_inv(oms, self.models@),
                !changed ==> (forall|k: int|
                    0 <= k < n && (#[trigger] self.models@[k].depth) is None ==> exists|
                        u: Seq<char>,
                    |
                        #[trigger] self.models@[k].upstream_models.deep_view().contains(u)
                            && depth_of_id(self.models@, u) is None),
            decreases n - count_assigned(self.models@) + (if changed {
                1int
            } else {
                0int
            }),
        {
            proof {
                lemma_count_assigned_bounds(self.models@);
            }
            let ghost pass_start = self.models@;
            changed = false;
            let mut k: usize = 0;
            while k < n
                invariant
                    old(self).wf(),
                    self.edges == old(self).edges,
                    self.defined_imports == old(self).defined_imports,
                    self.missing_imports == old(self).missing_imports,
                    oms == old(self).models@,
                    n == self.models@.len(),
                    n == pass_start.len(),
                    0 <= k <= n,
                    relax_inv(oms, self.models@),
                    changed ==> count_assigned(self.models@) > count_assigned(pass_start),
                    !changed ==> self.models@ == pass_start,
                    count_assigned(self.models@) >= count_assigned(pass_start),
                    !changed ==> (forall|k2: int|
                        0 <= k2 < k && (#[trigger] self.models@[k2].depth) is None ==> exists|
                            u: Seq<char>,
                        |
                            #[trigger] self.models@[k2].upstream_models.deep_view().contains(u)
                                && depth_of_id(self.models@, u) is None),
                decreases n - k,
            {
                let unassigned = match self.models[k].depth {
                    Option::Some(_) => false,
                    Option::None => true,
                };
                if unassigned && self.models[k].upstream_models.len() > 0 {
                    let (all_assigned, maxd) = self.max_upstream_depth(k);
                    if all_assigned {
                        proof {
                            lemma_count_assigned_bounds(self.models@);
                            assert(maxd < count_assigned(self.models@));
                            assert(count_assigned(self.models@) <= n);
                        }
                        let ghost before = self.models@;
                        let m = &mut self.models[k];
                        m.depth = Option::Some(maxd + 1);
                        changed = true;
                        proof {
                            let ms2 = self.models@;
                            let m2 = ms2[k as int];
                            assert(ms2 =~= before.update(k as int, m2));
                            assert(same_but_depth(m2, before[k as int]));
                            lemma_depth_update_preserves(before, k as int, m2);
                            lemma_count_assigned_update(before, k as int, m2);
                            assert(count_assigned(ms2) == count_assigned(before) + 1);
                            // the new depth looks downward correctly
                            assert(m2.depth->0 == maxd + 1 > 0);
                            assert forall|u: Seq<char>|
                                #[trigger] m2.upstream_models.deep_view().contains(u)
                                implies depth_of_id(ms2, u) is Some && depth_of_id(ms2, u)->0
                                <= maxd by {
                                assert(before[k as int].upstream_models.deep_view().contains(u));
                                assert(depth_of_id(before, u) is Some && depth_of_id(before, u)->0
                                    <= maxd);
                                lemma_find_id(before, u);
                                match find_id(before, u) {
                                    Option::Some(j) => {
                                        if j == k {
                                            assert(before[j].depth is None);
                                            assert(false);
                                        }
                                        assert(ms2[j].depth == before[j].depth);
                                    },
                                    Option::None => {
                                        assert(false);
                                    },
                                }
                            }
                            let uw = choose|u: Seq<char>|
                                #[trigger] before[k as int].upstream_models.deep_view().contains(u)
                                    && depth_of_id(before, u) == Option::Some(maxd);
                            assert(depth_of_id(ms2, uw) == Option::Some(maxd)) by {
                                lemma_find_id(before, uw);
                                match find_id(before, uw) {
                                    Option::Some(j) => {
                                        if j == k {
                                            assert(before[j].depth is None);
                                            assert(false);
                                        }
                                        assert(ms2[j].depth == before[j].depth);
                                    },
                                    Option::None => {
                                        assert(false);
                                    },
                                }
                            }
                            assert(m2.upstream_models.deep_view().contains(uw));
                            // other assigned models keep their properties
                            assert forall|a: int|
                                0 <= a < ms2.len() && (#[trigger] ms2[a].depth) is Some
                                    && ms2[a].depth->0 > 0 && a != k implies {
                                let d = ms2[a].depth->0;
                                &&& (forall|u: Seq<char>|
                                    #[trigger] ms2[a].upstream_models.deep_view().contains(u)
                                        ==> depth_of_id(ms2, u) is Some && depth_of_id(ms2, u)->0
                                        <= d - 1)
                                &&& (exists|u: Seq<char>|
                                    #[trigger] ms2[a].upstream_models.deep_view().contains(u)
                                        && depth_of_id(ms2, u) == Option::Some((d - 1) as usize))
                            } by {
                                let d = ms2[a].depth->0;
                                assert(ms2[a] == before[a]);
                                assert(before[a].depth is Some && before[a].depth->0 == d);
                                assert forall|u: Seq<char>|
                                    #[trigger] ms2[a].upstream_models.deep_view().contains(u)
                                    implies depth_of_id(ms2, u) is Some && depth_of_id(ms2, u)->0
                                    <= d - 1 by {
                                    assert(before[a].upstream_models.deep_view().contains(u));
                                    assert(depth_of_id(before, u) is Some);
                                    lemma_find_id(before, u);
                                    match find_id(before, u) {
                                        Option::Some(j) => {
                                            if j == k {
                                                assert(before[j].depth is None);
                                                assert(false);
                                            }
                                            assert(ms2[j].depth == before[j].depth);
                                        },
                                        Option::None => {
                                            assert(false);
                                        },
                                    }
                                }
                                let uw2 = choose|u: Seq<char>|
                                    #[trigger] before[a].upstream_models.deep_view().contains(u)
                                        && depth_of_id(before, u) == Option::Some((d - 1) as usize);
                                assert(depth_of_id(ms2, uw2) == Option::Some((d - 1) as usize)) by {
                                    lemma_find_id(before, uw2);
                                    match find_id(before, uw2) {
                                        Option::Some(j) => {
                                            if j == k {
                                                assert(before[j].depth is None);
                                                assert(false);
                                            }
                                            assert(ms2[j].depth == before[j].depth);
                                        },
                                        Option::None => {
                                            assert(false);
                                        },
                                    }
                                }
                                assert(ms2[a].upstream_models.deep_view().contains(uw2));
                            }
                            // count bound for every assigned model
                            assert forall|a: int|
                                0 <= a < ms2.len() && (#[trigger] ms2[a].depth) is Some
                                implies ms2[a].depth->0 < count_assigned(ms2) by {
                                if a != k {
                                    assert(ms2[a] == before[a]);
                                }
                            }
                            assert(relax_inv(oms, ms2));
                        }
                    }
                }
                k = k + 1;
            }
            proof {
                lemma_count_assigned_bounds(self.models@);
                lemma_count_assigned_bounds(pass_start);
            }
        }
        proof {
            assert(depths_assigned(self.models@));
            assert(self.wf()) by {
                let ms = self.models@;
                assert forall|a: int| 0 <= a < ms.len() implies (#[trigger] ms[a]).wf() by {
                    assert(same_but_depth(ms[a], oms[a]));
                    assert(oms[a].wf());
                }
                assert(neighbour_ids_exist(ms)) by {
                    assert forall|a: int, u: Seq<char>|
                        0 <= a < ms.len() && (ms[a].upstream_models.deep_view().contains(u)
                            || ms[a].downstream_models.deep_view().contains(u)) implies exists|
                        j: int,
                    |
                        0 <= j < ms.len() && #[trigger] ms[j].unique_id@ == u by {
                        assert(ms[a].upstream_models == oms[a].upstream_models);
                        assert(ms[a].downstream_models == oms[a].downstream_models);
                        let j = choose|j: int|
                            0 <= j < oms.len() && #[trigger] oms[j].unique_id@ == u;
                        assert(ms[j].unique_id@ == u);
                    }
                }
            }
        }
    }
}

// ----------------------------------------------------------------------
// Graph building.
// ----------------------------------------------------------------------

/// The same record up to its graph position (neighbours, external sources
/// and depth).
pub open spec fn same_core(a: SqlModel, b: SqlModel) -> bool {
    a == (SqlModel {
        upstream_models: a.upstream_models,
        downstream_models: a.downstream_models,
        external_sources: a.external_sources,
        depth: a.depth,
        ..b
    })
}

/// A record with its graph position cleared.
pub open spec fn cleared_model(a: SqlModel, b: SqlModel) -> bool {
    &&& same_core(a, b)
    &&& a.upstream_models@.len() == 0
    &&& a.downstream_models@.len() == 0
    &&& a.external_sources@.len() == 0
    &&& a.depth is None
}

/// Resolution only looks at schema and name, so it agrees on any two lists
/// whose models agree there.
pub proof fn lemma_resolve_same(ms1: Seq<SqlModel>, ms2: Seq<SqlModel>, r: Seq<char>)
    requires
        ms1.len() == ms2.len(),
        forall|i: int| 0 <= i < ms1.len() ==> table_key(#[trigger] ms1[i]) == table_key(ms2[i]),
    ensures
        resolve(ms1, r) == resolve(ms2, r),
    decreases ms1,
{
    if ms1.len() == 0 {
    } else {
        assert forall|i: int| 0 <= i < ms1.drop_first().len() implies table_key(
            #[trigger] ms1.drop_first()[i],
        ) == table_key(ms2.drop_first()[i]) by {
            assert(ms1.drop_first()[i] == ms1[i + 1]);
            assert(ms2.drop_first()[i] == ms2[i + 1]);
        }
        lemma_resolve_same(ms1.drop_first(), ms2.drop_first(), r);
    }
}

/// Whether the missing-imports map records `x` against the model id `id`.
pub open spec fn missing_has(
    entries: Seq<(String, Vec<String>)>,
    id: Seq<char>,
    x: Seq<char>,
) -> bool {
    exists|k: int|
        0 <= k < entries.len() && (#[trigger] entries[k]).0@ == id
            && entries[k].1.deep_view().contains(x)
}

/// What building the dependency graph establishes, relative to the records
/// as they stood before the build.
pub open spec fn graph_built(oms: Seq<SqlModel>, c: SqlModelCollection) -> bool {
    &&& c.models@.len() == oms.len()
    &&& (forall|i: int| 0 <= i < oms.len() ==> same_core(#[trigger] c.models@[i], oms[i]))
    &&& (forall|p: usize, c2: usize| #![trigger c.edges@.contains((p, c2))]
        c.edges@.contains((p, c2)) <==> is_edge(oms, p as int, c2 as int))
    &&& (forall|i: int, u: Seq<char>|
        0 <= i < oms.len() ==> ((#[trigger] c.models@[i].upstream_models.deep_view().contains(u))
            <==> (exists|p: int| is_edge(oms, p, i) && #[trigger] oms[p].unique_id@ == u)))
    &&& (forall|i: int, u: Seq<char>|
        0 <= i < oms.len() ==> ((#[trigger] c.models@[i].downstream_models.deep_view().contains(
            u,
        )) <==> (exists|c2: int| is_edge(oms, i, c2) && #[trigger] oms[c2].unique_id@ == u)))
    &&& (forall|i: int, x: Seq<char>|
        0 <= i < oms.len() ==> ((#[trigger] c.models@[i].external_sources.deep_view().contains(x))
            <==> (oms[i].referenced_tables.deep_view().contains(x) && resolve(oms, x) == -1)))
    &&& (forall|i: int, x: Seq<char>|
        0 <= i < oms.len() ==> (#[trigger] missing_has(c.missing_imports@, oms[i].unique_id@, x)
            <==> (oms[i].referenced_tables.deep_view().contains(x) && resolve(oms, x) == -1
            && !c.defined_imports.deep_view().contains(x))))
    &&& (forall|k: int|
        0 <= k < c.missing_imports@.len() ==> ((exists|i: int|
            0 <= i < oms.len() && (#[trigger] c.missing_imports@[k]).0@ == oms[i].unique_id@)
            && c.missing_imports@[k].1.deep_view().len() > 0))
}

/// The first position whose key equals `r`, or none.
fn find_key_index(keys: &Vec<String>, r: &str) -> (res: Option<usize>)
    ensures
        (match res {
            Option::Some(p) => p < keys@.len() && keys.deep_view()[p as int] == r@ && (forall|
                k: int,
            |
                0 <= k < p ==> keys.deep_view()[k] != r@),
            Option::None => forall|k: int| 0 <= k < keys@.len() ==> keys.deep_view()[k] != r@,
        }),
{
    let n: usize = keys.len();
    let mut p: usize = 0;
    while p < n
        invariant
            n == keys@.len(),
            0 <= p <= n,
            forall|k: int| 0 <= k < p ==> keys.deep_view()[k] != r@,
        decreases n - p,
    {
        if strutil::str_eq(keys[p].as_str(), r) {
            assert(keys.deep_view()[p as int] == r@);
            return Option::Some(p);
        }
        p = p + 1;
    }
    Option::None
}

impl SqlModelCollection {
    /// The `<schema-or-public>.<name>` key of the model at one position.
    fn table_key_of(&self, i: usize) -> (r: String)
        requires
            i < self.models@.len(),
        ensures
            r@ == table_key(self.models@[i as int]),
    {
        let m = &self.models[i];
        let mut out: String = match &m.schema {
            Option::Some(s) => s.clone(),
            Option::None => String::from_str("public"),
        };
        out = out.concat(".");
        out = out.concat(m.name.as_str());
        proof {
            assert(out@ =~= table_key(self.models@[i as int]));
        }
        out
    }
}

/// The position of one occurrence of a string in a sequence.
pub proof fn choose_seq_index(s: Seq<Seq<char>>, x: Seq<char>) -> (k: int)
    requires
        s.contains(x),
    ensures
        0 <= k < s.len(),
        s[k] == x,
{
    let k = choose|k: int| 0 <= k < s.len() && s[k] == x;
    k
}

impl SqlModelCollection {
    /// Builds the dependency graph: clears the old graph position of every
    /// record, resolves each referenced table against the models' keys,
    /// wires parent and child neighbourhoods, records external and missing
    /// sources, and assigns depths.
    pub fn build_dependency_graph(&mut self)
        requires
            old(self).wf(),
        ensures
            final(self).wf(),
            final(self).defined_imports == old(self).defined_imports,
            graph_built(old(self).models@, *final(self)),
            depths_assigned(final(self).models@),
    {
        let ghost oms = old(self).models@;
        let n: usize = self.models.len();
        self.edges = Vec::new();
        self.missing_imports = Vec::new();

        // clear every record's graph position
        let mut i: usize = 0;
        while i < n
            invariant
                old(self).wf(),
                oms == old(self).models@,
                self.defined_imports == old(self).defined_imports,
                self.edges@.len() == 0,
                self.missing_imports@.len() == 0,
                n == self.models@.len(),
                n == oms.len(),
                0 <= i <= n,
                forall|k: int| i <= k < n ==> self.models@[k] == oms[k],
                forall|k: int| 0 <= k < i ==> cleared_model(#[trigger] self.models@[k], oms[k]),
            decreases n - i,
        {
            let ghost before = self.models@;
            let m = &mut self.models[i];
            m.upstream_models = Vec::new();
            m.downstream_models = Vec::new();
            m.external_sources = Vec::new();
            m.depth = Option::None;
            proof {
                assert(self.models@ =~= before.update(i as int, self.models@[i as int]));
                assert(cleared_model(self.models@[i as int], oms[i as int]));
            }
            i = i + 1;
        }

        // the key every model publishes under
        let mut keys: Vec<String> = Vec::new();
        let mut ki: usize = 0;
        while ki < n
            invariant
                old(self).wf(),
                oms == old(self).models@,
                self.defined_imports == old(self).defined_imports,
                self.edges@.len() == 0,
                self.missing_imports@.len() == 0,
                n == self.models@.len(),
                n == oms.len(),
                forall|k: int| 0 <= k < n ==> cleared_model(#[trigger] self.models@[k], oms[k]),
                0 <= ki <= n,
                keys@.len() == ki,
                forall|k: int| 0 <= k < ki ==> keys.deep_view()[k] == table_key(#[trigger] oms[k]),
            decreases n - ki,
        {
            let key = self.table_key_of(ki);
            proof {
                assert(table_key(self.models@[ki as int]) == table_key(oms[ki as int]));
            }
            keys.push(key);
            proof {
                assert(keys.deep_view()[ki as int] == table_key(oms[ki as int]));
            }
            ki = ki + 1;
        }

        // resolve each record's references
        let mut c: usize = 0;
        while c < n
            invariant
                old(self).wf(),
                oms == old(self).models@,
                self.defined_imports == old(self).defined_imports,
                n == self.models@.len(),
                n == oms.len(),
                keys@.len() == n,
                forall|k: int| 0 <= k < n ==> keys.deep_view()[k] == table_key(#[trigger] oms[k]),
                0 <= c <= n,
                forall|k: int|
                    0 <= k < self.edges@.len() ==> (#[trigger] self.edges@[k]).0 < n
                        && self.edges@[k].1 < n,
                forall|k: int| c <= k < n ==> cleared_model(#[trigger] self.models@[k], oms[k]),
                forall|k: int| 0 <= k < c ==> same_core(#[trigger] self.models@[k], oms[k]),
                forall|k: int|
                    0 <= k < c ==> (#[trigger] self.models@[k]).downstream_models@.len() == 0
                        && self.models@[k].depth is None,
                forall|k: int|
                    0 <= k < c ==> strutil::no_dup_seqs(
                        (#[trigger] self.models@[k]).upstream_models.deep_view(),
                    ) && strutil::no_dup_seqs(self.models@[k].external_sources.deep_view()),
                forall|p: usize, c2: usize| #![trigger self.edges@.contains((p, c2))]
                    self.edges@.contains((p, c2)) <==> (c2 < c && is_edge(
                        oms,
                        p as int,
                        c2 as int,
                    )),
                forall|k: int, u: Seq<char>|
                    0 <= k < c ==> ((#[trigger] self.models@[k].upstream_models.deep_view().contains(
                        u,
                    )) <==> (exists|p: int| is_edge(oms, p, k) && #[trigger] oms[p].unique_id@
                        == u)),
                forall|k: int, x: Seq<char>|
                    0 <= k < c ==> ((#[trigger] self.models@[k].external_sources.deep_view().contains(
                        x,
                    )) <==> (oms[k].referenced_tables.deep_view().contains(x) && resolve(oms, x)
                        == -1)),
                forall|k: int, x: Seq<char>|
                    0 <= k < n ==> (#[trigger] missing_has(
                        self.missing_imports@,
                        oms[k].unique_id@,
                        x,
                    ) <==> (k < c && oms[k].referenced_tables.deep_view().contains(x) && resolve(
                        oms,
                        x,
                    ) == -1 && !self.defined_imports.deep_view().contains(x))),
                forall|k: int|
                    0 <= k < self.missing_imports@.len() ==> ((exists|i2: int|
                        0 <= i2 < n && (#[trigger] self.missing_imports@[k]).0@
                            == oms[i2].unique_id@) && self.missing_imports@[k].1.deep_view().len()
                        > 0),
            decreases n - c,
        {
            let ghost rv = oms[c as int].referenced_tables.deep_view();
            let ghost mstart = self.models@;
            let ghost estart = self.missing_imports@;
            let mut ups: Vec<String> = Vec::new();
            let mut ext: Vec<String> = Vec::new();
            let mut miss: Vec<String> = Vec::new();
            let nrefs: usize = self.models[c].referenced_tables.len();
            proof {
                assert(self.models@[c as int].referenced_tables
                    == oms[c as int].referenced_tables);
                assert(rv.take(0) =~= Seq::<Seq<char>>::empty());
            }
            let mut ri: usize = 0;
            while ri < nrefs
                invariant
                    old(self).wf(),
                    oms == old(self).models@,
                    self.defined_imports == old(self).defined_imports,
                    n == self.models@.len(),
                    n == oms.len(),
                    keys@.len() == n,
                    forall|k: int|
                        0 <= k < n ==> keys.deep_view()[k] == table_key(#[trigger] oms[k]),
                    0 <= c < n,
                    self.models@ == mstart,
                    self.missing_imports@ == estart,
                    forall|k: int| 0 <= k < n ==> same_core(#[trigger] self.models@[k], oms[k]),
                    rv == oms[c as int].referenced_tables.deep_view(),
                    self.models@[c as int].referenced_tables.deep_view() == rv,
                    nrefs == rv.len(),
                    nrefs == self.models@[c as int].referenced_tables@.len(),
                    0 <= ri <= nrefs,
                    forall|k: int|
                        0 <= k < self.edges@.len() ==> (#[trigger] self.edges@[k]).0 < n
                            && self.edges@[k].1 < n,
                    forall|p: usize, c2: usize| #![trigger self.edges@.contains((p, c2))]
                        self.edges@.contains((p, c2)) <==> ((c2 < c && is_edge(
                            oms,
                            p as int,
                            c2 as int,
                        )) || (c2 == c && (exists|rr: Seq<char>|
                            #[trigger] rv.take(ri as int).contains(rr) && resolve(oms, rr)
                                == p))),
                    strutil::no_dup_seqs(ups.deep_view()),
                    strutil::no_dup_seqs(ext.deep_view()),
                    strutil::no_dup_seqs(miss.deep_view()),
                    forall|u: Seq<char>|
                        #[trigger] ups.deep_view().contains(u) <==> (exists|p: int|
                            0 <= p < n && (exists|rr: Seq<char>|
                                #[trigger] rv.take(ri as int).contains(rr) && resolve(oms, rr)
                                    == p) && #[trigger] oms[p].unique_id@ == u),
                    forall|x: Seq<char>|
                        #[trigger] ext.deep_view().contains(x) <==> (rv.take(
                            ri as int,
                        ).contains(x) && resolve(oms, x) == -1),
                    forall|x: Seq<char>|
                        #[trigger] miss.deep_view().contains(x) <==> (rv.take(
                            ri as int,
                        ).contains(x) && resolve(oms, x) == -1
                            && !self.defined_imports.deep_view().contains(x)),
                decreases nrefs - ri,
            {
                proof {
                    assert(rv.take(ri + 1).drop_last() =~= rv.take(ri as int));
                    assert(rv.take(ri + 1).last() == rv[ri as int]);
                    lemma_resolve(oms, rv[ri as int]);
                }
                let rstr = &self.models[c].referenced_tables[ri];
                proof {
                    assert(rstr@ == rv[ri as int]);
                }
                match find_key_index(&keys, rstr.as_str()) {
                    Option::Some(p) => {
                        proof {
                            // the first key match is exactly the resolver's answer
                            let rs = resolve(oms, rv[ri as int]);
                            if rs < p {
                                if rs >= 0 {
                                    assert(keys.deep_view()[rs] == table_key(oms[rs]));
                                    assert(false);
                                } else {
                                    assert(table_key(oms[p as int]) != rv[ri as int]);
                                    assert(false);
                                }
                            }
                            if rs > p {
                                assert(table_key(oms[p as int]) == rv[ri as int]);
                                assert(false);
                            }
                            assert(rs == p);
                        }
                        let ghost eprev = self.edges@;
                        proof {
                            assert(forall|pp: usize, c2: usize|
                                #![trigger eprev.contains((pp, c2))]
                                eprev.contains((pp, c2)) <==> ((c2 < c && is_edge(
                                    oms,
                                    pp as int,
                                    c2 as int,
                                )) || (c2 == c && (exists|rr: Seq<char>|
                                    #[trigger] rv.take(ri as int).contains(rr) && resolve(
                                        oms,
                                        rr,
                                    ) == pp))));
                        }
                        self.edges.push((p, c));
                        let ghost uprev = ups.deep_view();
                        strutil::push_unique(&mut ups, self.models[p].unique_id.clone());
                        proof {
                            assert(self.edges@ =~= eprev.push((p, c)));
                            assert forall|pp: usize, c2: usize|
                                #![trigger self.edges@.contains((pp, c2))]
                                self.edges@.contains((pp, c2)) <==> ((c2 < c && is_edge(
                                    oms,
                                    pp as int,
                                    c2 as int,
                                )) || (c2 == c && (exists|rr: Seq<char>|
                                    #[trigger] rv.take(ri + 1).contains(rr) && resolve(oms, rr)
                                        == pp))) by {
                                if self.edges@.contains((pp, c2)) {
                                    let ke = choose|ke: int|
                                        0 <= ke < self.edges@.len() && self.edges@[ke] == (pp, c2);
                                    if ke < eprev.len() {
                                        assert(eprev[ke] == (pp, c2));
                                        assert(eprev.contains((pp, c2)));
                                        if c2 == c {
                                            assert((exists|rr: Seq<char>|
                                                #[trigger] rv.take(ri as int).contains(rr)
                                                    && resolve(oms, rr) == pp));
                                            let rr = choose|rr: Seq<char>|
                                                #[trigger] rv.take(ri as int).contains(rr)
                                                    && resolve(oms, rr) == pp;
                                            assert(rv.take(ri + 1).contains(rr)) by {
                                                let kr = choose_seq_index(rv.take(ri as int), rr);
                                                assert(rv.take(ri + 1)[kr] == rr);
                                            }
                                        }
                                    } else {
                                        assert((pp, c2) == (p, c));
                                        assert(rv.take(ri + 1).contains(rv[ri as int])) by {
                                            assert(rv.take(ri + 1)[ri as int] == rv[ri as int]);
                                        }
                                        assert(resolve(oms, rv[ri as int]) == pp as int);
                                    }
                                }
                                if (c2 < c && is_edge(oms, pp as int, c2 as int)) {
                                    assert(eprev.contains((pp, c2)));
                                    let ke = choose|ke: int|
                                        0 <= ke < eprev.len() && eprev[ke] == (pp, c2);
                                    assert(self.edges@[ke] == (pp, c2));
                                }
                                if c2 == c && (exists|rr: Seq<char>|
                                    #[trigger] rv.take(ri + 1).contains(rr) && resolve(oms, rr)
                                        == pp) {
                                    let rr = choose|rr: Seq<char>|
                                        #[trigger] rv.take(ri + 1).contains(rr) && resolve(
                                            oms,
                                            rr,
                                        ) == pp;
                                    let kr = choose_seq_index(rv.take(ri + 1), rr);
                                    if kr < ri {
                                        assert(rv.take(ri as int)[kr] == rr);
                                        assert(rv.take(ri as int).contains(rr));
                                        assert(eprev.contains((pp, c2)));
                                        let ke = choose|ke: int|
                                            0 <= ke < eprev.len() && eprev[ke] == (pp, c2);
                                        assert(self.edges@[ke] == (pp, c2));
                                    } else {
                                        assert(rr == rv[ri as int]);
                                        assert(pp == p);
                                        assert(self.edges@[eprev.len() as int] == (pp, c2));
                                    }
                                }
                            }
                            // the parent id joins the upstream set
                            let pid = oms[p as int].unique_id@;
                            assert(mstart[p as int].unique_id@ == pid);
                            assert forall|u: Seq<char>|
                                #![trigger ups.deep_view().contains(u)]
                                ups.deep_view().contains(u) <==> (uprev.contains(u) || u
                                == pid) by {
                                if uprev.contains(pid) {
                                    assert(ups.deep_view() == uprev);
                                } else {
                                    assert(ups.deep_view() == uprev.push(pid));
                                    if ups.deep_view().contains(u) {
                                        let kd = choose_seq_index(ups.deep_view(), u);
                                        if kd < uprev.len() {
                                            assert(uprev[kd] == u);
                                        } else {
                                            assert(u == pid);
                                        }
                                    }
                                    if uprev.contains(u) {
                                        let kd = choose_seq_index(uprev, u);
                                        assert(ups.deep_view()[kd] == u);
                                    }
                                    if u == pid {
                                        assert(ups.deep_view()[uprev.len() as int] == pid);
                                    }
                                }
                            }
                            assert forall|u: Seq<char>|
                                #![trigger ups.deep_view().contains(u)]
                                ups.deep_view().contains(u) <==> (exists|pp: int|
                                    0 <= pp < n && (exists|rr: Seq<char>|
                                        #[trigger] rv.take(ri + 1).contains(rr) && resolve(
                                            oms,
                                            rr,
                                        ) == pp) && #[trigger] oms[pp].unique_id@ == u) by {
                                if ups.deep_view().contains(u) {
                                    if uprev.contains(u) {
                                        let pp = choose|pp: int|
                                            0 <= pp < n && (exists|rr: Seq<char>|
                                                #[trigger] rv.take(ri as int).contains(rr)
                                                    && resolve(oms, rr) == pp)
                                                && #[trigger] oms[pp].unique_id@ == u;
                                        let rr = choose|rr: Seq<char>|
                                            #[trigger] rv.take(ri as int).contains(rr) && resolve(
                                                oms,
                                                rr,
                                            ) == pp;
                                        let kr = choose_seq_index(rv.take(ri as int), rr);
                                        assert(rv.take(ri + 1)[kr] == rr);
                                        assert(rv.take(ri + 1).contains(rr));
                                    } else {
                                        assert(u == pid);
                                        assert(rv.take(ri + 1)[ri as int] == rv[ri as int]);
                                        assert(rv.take(ri + 1).contains(rv[ri as int]));
                                        assert(resolve(oms, rv[ri as int]) == p as int);
                                        assert((0 <= p as int) && ((p as int) < n) && oms[p as int].unique_id@
                                            == u);
                                    }
                                }
                                if (exists|pp: int|
                                    0 <= pp < n && (exists|rr: Seq<char>|
                                        #[trigger] rv.take(ri + 1).contains(rr) && resolve(
                                            oms,
                                            rr,
                                        ) == pp) && #[trigger] oms[pp].unique_id@ == u) {
                                    let pp = choose|pp: int|
                                        0 <= pp < n && (exists|rr: Seq<char>|
                                            #[trigger] rv.take(ri + 1).contains(rr) && resolve(
                                                oms,
                                                rr,
                                            ) == pp) && #[trigger] oms[pp].unique_id@ == u;
                                    let rr = choose|rr: Seq<char>|
                                        #[trigger] rv.take(ri + 1).contains(rr) && resolve(
                                            oms,
                                            rr,
                                        ) == pp;
                                    let kr = choose_seq_index(rv.take(ri + 1), rr);
                                    if kr < ri {
                                        assert(rv.take(ri as int)[kr] == rr);
                                        assert(rv.take(ri as int).contains(rr));
                                        assert(uprev.contains(u));
                                    } else {
                                        assert(rr == rv[ri as int]);
                                        assert(pp == p as int);
                                        assert(u == pid);
                                    }
                                }
                            }
                            // external and missing sets are untouched
                            assert forall|x: Seq<char>|
                                #[trigger] ext.deep_view().contains(x) <==> (rv.take(
                                    ri + 1,
                                ).contains(x) && resolve(oms, x) == -1) by {
                                if rv.take(ri + 1).contains(x) && resolve(oms, x) == -1 {
                                    let kr = choose_seq_index(rv.take(ri + 1), x);
                                    if kr < ri {
                                        assert(rv.take(ri as int)[kr] == x);
                                        assert(rv.take(ri as int).contains(x));
                                    } else {
                                        assert(x == rv[ri as int]);
                                        assert(false);
                                    }
                                }
                                if ext.deep_view().contains(x) {
                                    let kr = choose_seq_index(rv.take(ri as int), x);
                                    assert(rv.take(ri + 1)[kr] == x);
                                }
                            }
                            assert forall|x: Seq<char>|
                                #[trigger] miss.deep_view().contains(x) <==> (rv.take(
                                    ri + 1,
                                ).contains(x) && resolve(oms, x) == -1
                                    && !self.defined_imports.deep_view().contains(x)) by {
                                if rv.take(ri + 1).contains(x) && resolve(oms, x) == -1 {
                                    let kr = choose_seq_index(rv.take(ri + 1), x);
                                    if kr < ri {
                                        assert(rv.take(ri as int)[kr] == x);
                                        assert(rv.take(ri as int).contains(x));
                                    } else {
                                        assert(x == rv[ri as int]);
                                        assert(false);
                                    }
                                }
                                if miss.deep_view().contains(x) {
                                    let kr = choose_seq_index(rv.take(ri as int), x);
                                    assert(rv.take(ri + 1)[kr] == x);
                                }
                            }
                        }
                    },
                    Option::None => {
                        proof {
                            let rs = resolve(oms, rv[ri as int]);
                            if rs >= 0 {
                                assert(keys.deep_view()[rs] == table_key(oms[rs]));
                                assert(false);
                            }
                        }
                        let ghost xprev = ext.deep_view();
                        strutil::push_unique(&mut ext, rstr.clone());
                        let in_imports = strutil::vec_contains_str(
                            &self.defined_imports,
                            rstr.as_str(),
                        );
                        let ghost mprev = miss.deep_view();
                        if !in_imports {
                            strutil::push_unique(&mut miss, rstr.clone());
                        }
                        proof {
                            let xv = rv[ri as int];
                            assert forall|x: Seq<char>|
                                #[trigger] ext.deep_view().contains(x) <==> (rv.take(
                                    ri + 1,
                                ).contains(x) && resolve(oms, x) == -1) by {
                                if ext.deep_view().contains(x) {
                                    if xprev.contains(x) {
                                        let kr = choose_seq_index(rv.take(ri as int), x);
                                        assert(rv.take(ri + 1)[kr] == x);
                                    } else {
                                        assert(ext.deep_view() == xprev.push(xv));
                                        let ke = choose|ke: int|
                                            0 <= ke < ext.deep_view().len()
                                                && ext.deep_view()[ke] == x;
                                        if ke < xprev.len() {
                                            assert(xprev[ke] == x);
                                            assert(xprev.contains(x));
                                            assert(false);
                                        }
                                        assert(x == xv);
                                        assert(rv.take(ri + 1)[ri as int] == xv);
                                    }
                                }
                                if rv.take(ri + 1).contains(x) && resolve(oms, x) == -1 {
                                    let kr = choose_seq_index(rv.take(ri + 1), x);
                                    if kr < ri {
                                        assert(rv.take(ri as int)[kr] == x);
                                        assert(rv.take(ri as int).contains(x));
                                        assert(xprev.contains(x));
                                        if !xprev.contains(xv) {
                                            let ke = choose|ke: int|
                                                0 <= ke < xprev.len() && xprev[ke] == x;
                                            assert(ext.deep_view()[ke] == x);
                                        }
                                    } else {
                                        assert(x == xv);
                                        if xprev.contains(xv) {
                                        } else {
                                            assert(ext.deep_view()[xprev.len() as int] == xv);
                                        }
                                    }
                                }
                            }
                            assert forall|x: Seq<char>|
                                #[trigger] miss.deep_view().contains(x) <==> (rv.take(
                                    ri + 1,
                                ).contains(x) && resolve(oms, x) == -1
                                    && !self.defined_imports.deep_view().contains(x)) by {
                                if miss.deep_view().contains(x) {
                                    if mprev.contains(x) {
                                        let kr = choose_seq_index(rv.take(ri as int), x);
                                        assert(rv.take(ri + 1)[kr] == x);
                                    } else {
                                        assert(!in_imports);
                                        assert(miss.deep_view() == mprev.push(xv));
                                        let ke = choose|ke: int|
                                            0 <= ke < miss.deep_view().len()
                                                && miss.deep_view()[ke] == x;
                                        if ke < mprev.len() {
                                            assert(mprev[ke] == x);
                                            assert(mprev.contains(x));
                                            assert(false);
                                        }
                                        assert(x == xv);
                                        assert(rv.take(ri + 1)[ri as int] == xv);
                                    }
                                }
                                if rv.take(ri + 1).contains(x) && resolve(oms, x) == -1
                                    && !self.defined_imports.deep_view().contains(x) {
                                    let kr = choose_seq_index(rv.take(ri + 1), x);
                                    if kr < ri {
                                        assert(rv.take(ri as int)[kr] == x);
                                        assert(rv.take(ri as int).contains(x));
                                        assert(mprev.contains(x));
                                        let ke = choose|ke: int|
                                            0 <= ke < mprev.len() && mprev[ke] == x;
                                        if !in_imports && !mprev.contains(xv) {
                                            assert(miss.deep_view()[ke] == x);
                                        }
                                    } else {
                                        assert(x == xv);
                                        assert(!in_imports);
                                        if mprev.contains(xv) {
                                        } else {
                                            assert(miss.deep_view()[mprev.len() as int] == xv);
                                        }
                                    }
                                }
                            }
                            // the edge and upstream sets are untouched
                            assert forall|pp: usize, c2: usize|
                                #![trigger self.edges@.contains((pp, c2))]
                                self.edges@.contains((pp, c2)) <==> ((c2 < c && is_edge(
                                    oms,
                                    pp as int,
                                    c2 as int,
                                )) || (c2 == c && (exists|rr: Seq<char>|
                                    #[trigger] rv.take(ri + 1).contains(rr) && resolve(oms, rr)
                                        == pp))) by {
                                if c2 == c && (exists|rr: Seq<char>|
                                    #[trigger] rv.take(ri + 1).contains(rr) && resolve(oms, rr)
                                        == pp) {
                                    let rr = choose|rr: Seq<char>|
                                        #[trigger] rv.take(ri + 1).contains(rr) && resolve(
                                            oms,
                                            rr,
                                        ) == pp;
                                    let kr = choose_seq_index(rv.take(ri + 1), rr);
                                    if kr < ri {
                                        assert(rv.take(ri as int)[kr] == rr);
                                        assert(rv.take(ri as int).contains(rr));
                                    } else {
                                        assert(rr == rv[ri as int]);
                                        assert(false);
                                    }
                                }
                                if c2 == c && (exists|rr: Seq<char>|
                                    #[trigger] rv.take(ri as int).contains(rr) && resolve(
                                        oms,
                                        rr,
                                    ) == pp) {
                                    let rr = choose|rr: Seq<char>|
                                        #[trigger] rv.take(ri as int).contains(rr) && resolve(
                                            oms,
                                            rr,
                                        ) == pp;
                                    let kr = choose_seq_index(rv.take(ri as int), rr);
                                    assert(rv.take(ri + 1)[kr] == rr);
                                    assert(rv.take(ri + 1).contains(rr));
                                }
                            }
                            assert forall|u: Seq<char>|
                                #![trigger ups.deep_view().contains(u)]
                                ups.deep_view().contains(u) <==> (exists|pp: int|
                                    0 <= pp < n && (exists|rr: Seq<char>|
                                        #[trigger] rv.take(ri + 1).contains(rr) && resolve(
                                            oms,
                                            rr,
                                        ) == pp) && #[trigger] oms[pp].unique_id@ == u) by {
                                if ups.deep_view().contains(u) {
                                    let pp = choose|pp: int|
                                        0 <= pp < n && (exists|rr: Seq<char>|
                                            #[trigger] rv.take(ri as int).contains(rr) && resolve(
                                                oms,
                                                rr,
                                            ) == pp) && #[trigger] oms[pp].unique_id@ == u;
                                    let rr = choose|rr: Seq<char>|
                                        #[trigger] rv.take(ri as int).contains(rr) && resolve(
                                            oms,
                                            rr,
                                        ) == pp;
                                    let kr = choose_seq_index(rv.take(ri as int), rr);
                                    assert(rv.take(ri + 1)[kr] == rr);
                                    assert(rv.take(ri + 1).contains(rr));
                                }
                                if (exists|pp: int|
                                    0 <= pp < n && (exists|rr: Seq<char>|
                                        #[trigger] rv.take(ri + 1).contains(rr) && resolve(
                                            oms,
                                            rr,
                                        ) == pp) && #[trigger] oms[pp].unique_id@ == u) {
                                    let pp = choose|pp: int|
                                        0 <= pp < n && (exists|rr: Seq<char>|
                                            #[trigger] rv.take(ri + 1).contains(rr) && resolve(
                                                oms,
                                                rr,
                                            ) == pp) && #[trigger] oms[pp].unique_id@ == u;
                                    let rr = choose|rr: Seq<char>|
                                        #[trigger] rv.take(ri + 1).contains(rr) && resolve(
                                            oms,
                                            rr,
                                        ) == pp;
                                    let kr = choose_seq_index(rv.take(ri + 1), rr);
                                    if kr < ri {
                                        assert(rv.take(ri as int)[kr] == rr);
                                        assert(rv.take(ri as int).contains(rr));
                                    } else {
                                        assert(rr == rv[ri as int]);
                                        assert(resolve(oms, rr) == -1);
                                        assert(false);
                                    }
                                }
                            }
                        }
                    },
                }
                ri = ri + 1;
            }
            proof {
                assert(ri == nrefs);
                assert(rv.take(ri as int) =~= rv);
                assert forall|pp: usize, c2: usize|
                    self.edges@.contains((pp, c2)) <==> ((c2 < c + 1) && is_edge(
                        oms,
                        pp as int,
                        c2 as int,
                    )) by {
                    if self.edges@.contains((pp, c2)) {
                        if c2 == c {
                            assert((exists|rr: Seq<char>|
                                #[trigger] rv.take(ri as int).contains(rr) && resolve(oms, rr)
                                    == pp));
                            let rr = choose|rr: Seq<char>|
                                #[trigger] rv.take(ri as int).contains(rr) && resolve(oms, rr)
                                    == pp;
                            assert(rv.contains(rr));
                            assert(oms[c2 as int].referenced_tables.deep_view().contains(rr));
                            lemma_resolve(oms, rr);
                            assert(is_edge(oms, pp as int, c2 as int));
                        }
                    }
                    if c2 < c + 1 && is_edge(oms, pp as int, c2 as int) {
                        if c2 == c {
                            let rr = choose|rr: Seq<char>|
                                #[trigger] oms[c2 as int].referenced_tables.deep_view().contains(
                                    rr,
                                ) && resolve(oms, rr) == pp;
                            assert(rv.take(ri as int).contains(rr));
                            assert(self.edges@.contains((pp, c2)));
                        }
                    }
                }
            }
            // write the record's upstream and external sets
            let ghost upsv = ups.deep_view();
            let ghost extv = ext.deep_view();
            let ghost before = self.models@;
            let m = &mut self.models[c];
            m.upstream_models = ups;
            m.external_sources = ext;
            proof {
                assert(self.models@ =~= before.update(c as int, self.models@[c as int]));
                assert(self.models@[c as int].upstream_models.deep_view() == upsv);
                assert(self.models@[c as int].external_sources.deep_view() == extv);
                assert(same_core(self.models@[c as int], oms[c as int]));
            }
            // record any missing imports under the record's id
            if miss.len() > 0 {
                let ghost missv = miss.deep_view();
                let ghost eb = self.missing_imports@;
                let key_id = self.models[c].unique_id.clone();
                proof {
                    assert(key_id@ == oms[c as int].unique_id@);
                }
                self.missing_imports.push((key_id, miss));
                proof {
                    assert(self.missing_imports@ =~= eb.push(
                        (self.missing_imports@[eb.len() as int].0, self.missing_imports@[eb.len() as int].1),
                    ));
                    let entries = self.missing_imports@;
                    assert(entries[eb.len() as int].0@ == oms[c as int].unique_id@);
                    assert(entries[eb.len() as int].1.deep_view() == missv);
                    assert forall|k: int, x: Seq<char>|
                        0 <= k < n implies (#[trigger] missing_has(entries, oms[k].unique_id@, x)
                        <==> (k < c + 1 && oms[k].referenced_tables.deep_view().contains(x)
                            && resolve(oms, x) == -1
                            && !self.defined_imports.deep_view().contains(x))) by {
                        if missing_has(entries, oms[k].unique_id@, x) {
                            let ke = choose|ke: int|
                                0 <= ke < entries.len() && (#[trigger] entries[ke]).0@
                                    == oms[k].unique_id@ && entries[ke].1.deep_view().contains(x);
                            if ke < eb.len() {
                                assert(eb[ke] == entries[ke]);
                                assert(missing_has(eb, oms[k].unique_id@, x));
                            } else {
                                assert(entries[ke].0@ == oms[c as int].unique_id@);
                                assert(oms[k].unique_id@ == oms[c as int].unique_id@);
                                if k != c {
                                    if k < c {
                                        assert(oms[k].unique_id@ != oms[c as int].unique_id@);
                                    } else {
                                        assert(oms[c as int].unique_id@ != oms[k].unique_id@);
                                    }
                                    assert(false);
                                }
                                assert(missv.contains(x));
                            }
                        }
                        if k < c + 1 && oms[k].referenced_tables.deep_view().contains(x)
                            && resolve(oms, x) == -1
                            && !self.defined_imports.deep_view().contains(x) {
                            if k < c {
                                assert(missing_has(eb, oms[k].unique_id@, x));
                                let ke = choose|ke: int|
                                    0 <= ke < eb.len() && (#[trigger] eb[ke]).0@
                                        == oms[k].unique_id@ && eb[ke].1.deep_view().contains(x);
                                assert(entries[ke] == eb[ke]);
                            } else {
                                assert(k == c);
                                assert(missv.contains(x));
                                assert(entries[eb.len() as int].0@ == oms[k].unique_id@);
                            }
                        }
                    }
                }
            } else {
                proof {
                    assert forall|k: int, x: Seq<char>|
                        0 <= k < n implies (#[trigger] missing_has(
                        self.missing_imports@,
                        oms[k].unique_id@,
                        x,
                    ) <==> (k < c + 1 && oms[k].referenced_tables.deep_view().contains(x)
                        && resolve(oms, x) == -1
                        && !self.defined_imports.deep_view().contains(x))) by {
                        if k == c && oms[k].referenced_tables.deep_view().contains(x) && resolve(
                            oms,
                            x,
                        ) == -1 && !self.defined_imports.deep_view().contains(x) {
                            assert(miss.deep_view().contains(x));
                            assert(miss.deep_view().len() > 0);
                            assert(false);
                        }
                    }
                }
            }
            c = c + 1;
        }

        // wire each record's downstream neighbourhood from the edges
        let ghost edgesv = self.edges@;
        let mut p: usize = 0;
        while p < n
            invariant
                old(self).wf(),
                oms == old(self).models@,
                self.defined_imports == old(self).defined_imports,
                n == self.models@.len(),
                n == oms.len(),
                0 <= p <= n,
                self.edges@ == edgesv,
                forall|k: int|
                    0 <= k < self.edges@.len() ==> (#[trigger] self.edges@[k]).0 < n
                        && self.edges@[k].1 < n,
                forall|pp: usize, c2: usize|
                    self.edges@.contains((pp, c2)) <==> is_edge(oms, pp as int, c2 as int),
                forall|k: int| 0 <= k < n ==> same_core(#[trigger] self.models@[k], oms[k]),
                forall|k: int| 0 <= k < n ==> (#[trigger] self.models@[k]).depth is None,
                forall|k: int|
                    0 <= k < n ==> strutil::no_dup_seqs(
                        (#[trigger] self.models@[k]).upstream_models.deep_view(),
                    ) && strutil::no_dup_seqs(self.models@[k].external_sources.deep_view()),
                forall|k: int, u: Seq<char>|
                    0 <= k < n ==> ((#[trigger] self.models@[k].upstream_models.deep_view().contains(
                        u,
                    )) <==> (exists|p2: int| is_edge(oms, p2, k) && #[trigger] oms[p2].unique_id@
                        == u)),
                forall|k: int, x: Seq<char>|
                    0 <= k < n ==> ((#[trigger] self.models@[k].external_sources.deep_view().contains(
                        x,
                    )) <==> (oms[k].referenced_tables.deep_view().contains(x) && resolve(oms, x)
                        == -1)),
                forall|k: int, x: Seq<char>|
                    0 <= k < n ==> (#[trigger] missing_has(
                        self.missing_imports@,
                        oms[k].unique_id@,
                        x,
                    ) <==> (oms[k].referenced_tables.deep_view().contains(x) && resolve(oms, x)
                        == -1 && !self.defined_imports.deep_view().contains(x))),
                forall|k: int|
                    0 <= k < self.missing_imports@.len() ==> ((exists|i2: int|
                        0 <= i2 < n && (#[trigger] self.missing_imports@[k]).0@
                            == oms[i2].unique_id@) && self.missing_imports@[k].1.deep_view().len()
                        > 0),
                forall|k: int|
                    p <= k < n ==> (#[trigger] self.models@[k]).downstream_models@.len() == 0,
                forall|k: int, u: Seq<char>|
                    0 <= k < p ==> ((#[trigger] self.models@[k].downstream_models.deep_view().contains(
                        u,
                    )) <==> (exists|c2: int| is_edge(oms, k, c2) && #[trigger] oms[c2].unique_id@
                        == u)),
                forall|k: int|
                    0 <= k < p ==> strutil::no_dup_seqs(
                        (#[trigger] self.models@[k]).downstream_models.deep_view(),
                    ),
            decreases n - p,
        {
            let mut douns: Vec<String> = Vec::new();
            let ne: usize = self.edges.len();
            let mut e: usize = 0;
            while e < ne
                invariant
                    n == self.models@.len(),
                    n == oms.len(),
                    0 <= p < n,
                    ne == self.edges@.len(),
                    0 <= e <= ne,
                    forall|k: int|
                        0 <= k < self.edges@.len() ==> (#[trigger] self.edges@[k]).0 < n
                            && self.edges@[k].1 < n,
                    forall|k: int| 0 <= k < n ==> same_core(#[trigger] self.models@[k], oms[k]),
                    strutil::no_dup_seqs(douns.deep_view()),
                    forall|u: Seq<char>|
                        #[trigger] douns.deep_view().contains(u) <==> (exists|ke: int|
                            0 <= ke < e && (#[trigger] self.edges@[ke]).0 == p
                                && oms[self.edges@[ke].1 as int].unique_id@ == u),
                decreases ne - e,
            {
                let (ep, ec) = (self.edges[e].0, self.edges[e].1);
                if ep == p {
                    let ghost dprev = douns.deep_view();
                    let cid = self.models[ec].unique_id.clone();
                    proof {
                        assert(cid@ == oms[ec as int].unique_id@);
                    }
                    strutil::push_unique(&mut douns, cid);
                    proof {
                        assert forall|u: Seq<char>|
                            #[trigger] douns.deep_view().contains(u) <==> (exists|ke: int|
                                0 <= ke < e + 1 && (#[trigger] self.edges@[ke]).0 == p
                                    && oms[self.edges@[ke].1 as int].unique_id@ == u) by {
                            if douns.deep_view().contains(u) {
                                if dprev.contains(u) {
                                    let ke = choose|ke: int|
                                        0 <= ke < e && (#[trigger] self.edges@[ke]).0 == p
                                            && oms[self.edges@[ke].1 as int].unique_id@ == u;
                                    assert(0 <= ke < e + 1);
                                } else {
                                    assert(u == oms[ec as int].unique_id@);
                                    assert(self.edges@[e as int].0 == p);
                                }
                            }
                            if (exists|ke: int|
                                0 <= ke < e + 1 && (#[trigger] self.edges@[ke]).0 == p
                                    && oms[self.edges@[ke].1 as int].unique_id@ == u) {
                                let ke = choose|ke: int|
                                    0 <= ke < e + 1 && (#[trigger] self.edges@[ke]).0 == p
                                        && oms[self.edges@[ke].1 as int].unique_id@ == u;
                                if ke < e {
                                    assert(dprev.contains(u));
                                    if !dprev.contains(oms[ec as int].unique_id@) {
                                        let kd = choose|kd: int|
                                            0 <= kd < dprev.len() && dprev[kd] == u;
                                        assert(douns.deep_view()[kd] == u);
                                    }
                                } else {
                                    assert(u == oms[ec as int].unique_id@);
                                    if !dprev.contains(u) {
                                        assert(douns.deep_view()[dprev.len() as int] == u);
                                    }
                                }
                            }
                        }
                    }
                }
                e = e + 1;
            }
            let ghost dounsv = douns.deep_view();
            let ghost before = self.models@;
            let m = &mut self.models[p];
            m.downstream_models = douns;
            proof {
                assert(self.models@ =~= before.update(p as int, self.models@[p as int]));
                assert(same_core(self.models@[p as int], oms[p as int]));
                assert forall|u: Seq<char>|
                    #[trigger] self.models@[p as int].downstream_models.deep_view().contains(u)
                    <==> (exists|c2: int| is_edge(oms, p as int, c2)
                        && #[trigger] oms[c2].unique_id@ == u) by {
                    if dounsv.contains(u) {
                        let ke = choose|ke: int|
                            0 <= ke < ne && (#[trigger] self.edges@[ke]).0 == p
                                && oms[self.edges@[ke].1 as int].unique_id@ == u;
                        let c2 = self.edges@[ke].1;
                        assert(self.edges@.contains((p, c2)));
                        assert(is_edge(oms, p as int, c2 as int));
                    }
                    if (exists|c2: int| is_edge(oms, p as int, c2) && #[trigger] oms[c2].unique_id@
                        == u) {
                        let c2 = choose|c2: int|
                            is_edge(oms, p as int, c2) && #[trigger] oms[c2].unique_id@ == u;
                        assert(self.edges@.contains((p, c2 as usize)));
                        let ke = choose|ke: int|
                            0 <= ke < ne && self.edges@[ke] == (p, c2 as usize);
                        assert(self.edges@[ke].0 == p);
                        assert(oms[self.edges@[ke].1 as int].unique_id@ == u);
                    }
                }
            }
            p = p + 1;
        }

        // assign depths over the finished graph
        proof {
            assert(self.wf()) by {
                let ms = self.models@;
                assert(ids_unique(ms)) by {
                    assert forall|a: int, b: int| 0 <= a < b < ms.len() implies ms[a].unique_id@
                        != ms[b].unique_id@ by {
                        assert(oms[a].unique_id@ != oms[b].unique_id@);
                    }
                }
                assert forall|a: int| 0 <= a < ms.len() implies (#[trigger] ms[a]).wf() by {
                    assert(oms[a].wf());
                    assert(ms[a].referenced_tables == oms[a].referenced_tables);
                    assert(ms[a].columns == oms[a].columns);
                }
                assert(neighbour_ids_exist(ms)) by {
                    assert forall|a: int, u: Seq<char>|
                        0 <= a < ms.len() && (ms[a].upstream_models.deep_view().contains(u)
                            || ms[a].downstream_models.deep_view().contains(u)) implies exists|
                        j: int,
                    |
                        0 <= j < ms.len() && #[trigger] ms[j].unique_id@ == u by {
                        if ms[a].upstream_models.deep_view().contains(u) {
                            let p2 = choose|p2: int|
                                is_edge(oms, p2, a) && #[trigger] oms[p2].unique_id@ == u;
                            assert(ms[p2].unique_id@ == u);
                        } else {
                            let c2 = choose|c2: int|
                                is_edge(oms, a, c2) && #[trigger] oms[c2].unique_id@ == u;
                            assert(ms[c2].unique_id@ == u);
                        }
                    }
                }
            }
        }
        let ghost premodels = self.models@;
        self.calculate_model_depths();
        proof {
            let ms = self.models@;
            assert forall|k: int| 0 <= k < n implies same_core(#[trigger] ms[k], oms[k]) by {
                assert(same_but_depth(ms[k], premodels[k]));
                assert(same_core(premodels[k], oms[k]));
            }
            assert forall|k: int, u: Seq<char>|
                0 <= k < n implies ((#[trigger] ms[k].upstream_models.deep_view().contains(u))
                <==> (exists|p2: int| is_edge(oms, p2, k) && #[trigger] oms[p2].unique_id@
                    == u)) by {
                assert(ms[k].upstream_models == premodels[k].upstream_models);
            }
            assert forall|k: int, u: Seq<char>|
                0 <= k < n implies ((#[trigger] ms[k].downstream_models.deep_view().contains(u))
                <==> (exists|c2: int| is_edge(oms, k, c2) && #[trigger] oms[c2].unique_id@
                    == u)) by {
                assert(ms[k].downstream_models == premodels[k].downstream_models);
            }
            assert forall|k: int, x: Seq<char>|
                0 <= k < n implies ((#[trigger] ms[k].external_sources.deep_view().contains(x))
                <==> (oms[k].referenced_tables.deep_view().contains(x) && resolve(oms, x)
                    == -1)) by {
                assert(ms[k].external_sources == premodels[k].external_sources);
            }
        }
    }
}

// ----------------------------------------------------------------------
// The laws of a built graph.
// ----------------------------------------------------------------------

/// Every upstream neighbour's published key is among the model's referenced
/// tables, every external source is too, and the two sets are disjoint: a
/// key of a model never lands among the external sources.
pub proof fn lemma_referenced_covers_neighbours(oms: Seq<SqlModel>, c: SqlModelCollection)
    requires
        graph_built(oms, c),
        ids_unique(oms),
    ensures
        forall|i: int, u: Seq<char>|
            0 <= i < oms.len() && #[trigger] c.models@[i].upstream_models.deep_view().contains(u)
                ==> (find_id(oms, u) is Some && oms[i].referenced_tables.deep_view().contains(
                table_key(oms[find_id(oms, u)->0]),
            )),
        forall|i: int, x: Seq<char>|
            0 <= i < oms.len() && #[trigger] c.models@[i].external_sources.deep_view().contains(x)
                ==> oms[i].referenced_tables.deep_view().contains(x),
        forall|i: int, u: Seq<char>|
            0 <= i < oms.len() && #[trigger] c.models@[i].upstream_models.deep_view().contains(u)
                ==> !c.models@[i].external_sources.deep_view().contains(
                table_key(oms[find_id(oms, u)->0]),
            ),
{
    assert forall|i: int, u: Seq<char>|
        0 <= i < oms.len() && #[trigger] c.models@[i].upstream_models.deep_view().contains(u)
        implies (find_id(oms, u) is Some && oms[i].referenced_tables.deep_view().contains(
        table_key(oms[find_id(oms, u)->0]),
    ) && !c.models@[i].external_sources.deep_view().contains(
        table_key(oms[find_id(oms, u)->0]),
    )) by {
        let p = choose|p: int| is_edge(oms, p, i) && #[trigger] oms[p].unique_id@ == u;
        lemma_find_id_unique(oms, u, p);
        let r = choose|r: Seq<char>|
            #[trigger] oms[i].referenced_tables.deep_view().contains(r) && resolve(oms, r) == p;
        lemma_resolve(oms, r);
        assert(table_key(oms[p]) == r);
        assert(resolve(oms, r) != -1);
    }
}

/// An edge stands in the collection exactly when the child lists the parent
/// upstream, exactly when the parent lists the child downstream.
pub proof fn lemma_edges_match_neighbourhoods(oms: Seq<SqlModel>, c: SqlModelCollection)
    requires
        graph_built(oms, c),
        ids_unique(oms),
    ensures
        forall|p: int, c2: int|
            0 <= p < oms.len() && 0 <= c2 < oms.len() ==> (#[trigger] is_edge(oms, p, c2)
                <==> c.models@[c2].upstream_models.deep_view().contains(oms[p].unique_id@)),
        forall|p: int, c2: int|
            0 <= p < oms.len() && 0 <= c2 < oms.len() ==> (#[trigger] is_edge(oms, p, c2)
                <==> c.models@[p].downstream_models.deep_view().contains(oms[c2].unique_id@)),
        forall|p: usize, c2: usize| #![trigger c.edges@.contains((p, c2))]
            (p as int) < oms.len() && (c2 as int) < oms.len() ==> (is_edge(oms, p as int, c2 as int)
                <==> c.edges@.contains((p, c2))),
{
    assert forall|p: int, c2: int|
        0 <= p < oms.len() && 0 <= c2 < oms.len() implies (#[trigger] is_edge(oms, p, c2)
        <==> c.models@[c2].upstream_models.deep_view().contains(oms[p].unique_id@)) by {
        if is_edge(oms, p, c2) {
        }
        if c.models@[c2].upstream_models.deep_view().contains(oms[p].unique_id@) {
            let p2 = choose|p2: int|
                is_edge(oms, p2, c2) && #[trigger] oms[p2].unique_id@ == oms[p].unique_id@;
            if p2 != p {
                if p2 < p {
                    assert(oms[p2].unique_id@ != oms[p].unique_id@);
                } else {
                    assert(oms[p].unique_id@ != oms[p2].unique_id@);
                }
                assert(false);
            }
        }
    }
    assert forall|p: int, c2: int|
        0 <= p < oms.len() && 0 <= c2 < oms.len() implies (#[trigger] is_edge(oms, p, c2)
        <==> c.models@[p].downstream_models.deep_view().contains(oms[c2].unique_id@)) by {
        if c.models@[p].downstream_models.deep_view().contains(oms[c2].unique_id@) {
            let c3 = choose|c3: int|
                is_edge(oms, p, c3) && #[trigger] oms[c3].unique_id@ == oms[c2].unique_id@;
            if c3 != c2 {
                if c3 < c2 {
                    assert(oms[c3].unique_id@ != oms[c2].unique_id@);
                } else {
                    assert(oms[c2].unique_id@ != oms[c3].unique_id@);
                }
                assert(false);
            }
        }
    }

}

/// Whatever lands among a model's external sources is published by no model:
/// no key of the collection equals it.
pub proof fn lemma_external_unpublished(oms: Seq<SqlModel>, c: SqlModelCollection)
    requires
        graph_built(oms, c),
    ensures
        forall|i: int, x: Seq<char>|
            0 <= i < oms.len() && #[trigger] c.models@[i].external_sources.deep_view().contains(x)
                ==> (forall|j: int| 0 <= j < oms.len() ==> table_key(#[trigger] oms[j]) != x),
{
    assert forall|i: int, x: Seq<char>|
        0 <= i < oms.len() && #[trigger] c.models@[i].external_sources.deep_view().contains(x)
        implies (forall|j: int| 0 <= j < oms.len() ==> table_key(#[trigger] oms[j]) != x) by {
        assert(resolve(oms, x) == -1);
        lemma_resolve(oms, x);
    }
}

/// A reference is recorded as missing for a model exactly when it is one of
/// that model's external sources and is not a declared import.
pub proof fn lemma_missing_iff_undeclared_external(oms: Seq<SqlModel>, c: SqlModelCollection)
    requires
        graph_built(oms, c),
    ensures
        forall|i: int, x: Seq<char>|
            0 <= i < oms.len() ==> (#[trigger] missing_has(
                c.missing_imports@,
                oms[i].unique_id@,
                x,
            ) <==> (c.models@[i].external_sources.deep_view().contains(x)
                && !c.defined_imports.deep_view().contains(x))),
{
}

impl SqlModelCollection {
    /// Whether any model references an undeclared external import.
    pub fn has_missing_sources(&self) -> (r: bool)
        ensures
            r == (self.missing_imports@.len() > 0),
    {
        self.missing_imports.len() > 0
    }

    /// The map from model id to its unresolved references.
    pub fn get_missing_sources(&self) -> (r: &Vec<(String, Vec<String>)>)
        ensures
            r == &self.missing_imports,
    {
        &self.missing_imports
    }
}

/// One reported line about a model's undeclared imports.
pub open spec fn report_line(name: Seq<char>, refs: Seq<Seq<char>>) -> Seq<char> {
    "Model '"@ + name + "' references undefined external import(s): "@ + strutil::join_with(
        Seq::new(refs.len(), |i: int| "'"@ + refs[i] + "'"@),
        ", "@,
    )
}

/// The report over the missing-imports entries, in order; entries whose id
/// names no model are passed over.
pub open spec fn report_lines(
    ms: Seq<SqlModel>,
    entries: Seq<(String, Vec<String>)>,
) -> Seq<Seq<char>>
    decreases entries,
{
    if entries.len() == 0 {
        Seq::empty()
    } else {
        report_lines(ms, entries.drop_last()) + (match find_id(ms, entries.last().0@) {
            Option::Some(j) => seq![
                report_line(ms[j].name@, entries.last().1.deep_view()),
            ],
            Option::None => Seq::empty(),
        })
    }
}

/// The path of the imports catalog under a project root: `models/imports`
/// unless the root itself is the models directory.
pub open spec fn imports_dir_seq(root: Seq<char>) -> Seq<char> {
    if root == "models"@ || strutil::ends_with_seq(root, "/models"@) {
        root + "/imports"@
    } else {
        root + "/models/imports"@
    }
}

/// Returns the imports catalog directory for a project root.
pub fn get_imports_directory_path(project_root: &str) -> (r: String)
    ensures
        r@ == imports_dir_seq(project_root@),
{
    if strutil::str_eq(project_root, "models") || strutil::ends_with(project_root, "/models") {
        let out = project_root.to_owned().concat("/imports");
        assert(out@ =~= imports_dir_seq(project_root@));
        out
    } else {
        let out = project_root.to_owned().concat("/models/imports");
        assert(out@ =~= imports_dir_seq(project_root@));
        out
    }
}

/// The unique ids of the models, in held order.
pub open spec fn model_ids(ms: Seq<SqlModel>) -> Seq<Seq<char>> {
    Seq::new(ms.len(), |i: int| ms[i].unique_id@)
}

impl SqlModelCollection {
    /// A human-readable report of the undeclared external imports, one line
    /// per recorded model.
    pub fn get_missing_sources_report(&self) -> (r: Vec<String>)
        ensures
            r.deep_view() == report_lines(self.models@, self.missing_imports@),
    {
        let ghost ms = self.models@;
        let ghost entries = self.missing_imports@;
        let mut out: Vec<String> = Vec::new();
        proof {
            assert(entries.take(0) =~= Seq::<(String, Vec<String>)>::empty());
            assert(out.deep_view() =~= report_lines(ms, entries.take(0)));
        }
        let ne: usize = self.missing_imports.len();
        let mut k: usize = 0;
        while k < ne
            invariant
                ms == self.models@,
                entries == self.missing_imports@,
                ne == entries.len(),
                0 <= k <= ne,
                out.deep_view() == report_lines(ms, entries.take(k as int)),
            decreases ne - k,
        {
            let ghost prev = out.deep_view();
            proof {
                assert(entries.take(k + 1).drop_last() =~= entries.take(k as int));
                assert(entries.take(k + 1).last() == entries[k as int]);
                lemma_find_id(ms, entries[k as int].0@);
            }
            match self.find_index(self.missing_imports[k].0.as_str()) {
                Option::Some(j) => {
                    proof {
                        match find_id(ms, entries[k as int].0@) {
                            Option::Some(fj) => {
                            },
                            Option::None => {
                                assert(ms[j as int].unique_id@ != entries[k as int].0@);
                                assert(false);
                            },
                        }
                    }
                    let refs = &self.missing_imports[k].1;
                    let nr: usize = refs.len();
                    let mut quoted: Vec<String> = Vec::new();
                    let ghost rdv = refs.deep_view();
                    let ghost qspec = Seq::new(rdv.len(), |i: int| "'"@ + rdv[i] + "'"@);
                    proof {
                        assert(quoted.deep_view() =~= qspec.take(0));
                    }
                    let mut qi: usize = 0;
                    while qi < nr
                        invariant
                            rdv == self.missing_imports@[k as int].1.deep_view(),
                            refs == &self.missing_imports[k as int].1,
                            k < self.missing_imports@.len(),
                            qspec == Seq::new(rdv.len(), |i: int| "'"@ + rdv[i] + "'"@),
                            nr == rdv.len(),
                            0 <= qi <= nr,
                            quoted@.len() == qi,
                            forall|j: int| 0 <= j < qi ==> quoted.deep_view()[j] == qspec[j],
                        decreases nr - qi,
                    {
                        let mut q = String::from_str("'");
                        q = q.concat(refs[qi].as_str());
                        q = q.concat("'");
                        proof {
                            assert(q@ =~= qspec[qi as int]);
                        }
                        quoted.push(q);
                        qi = qi + 1;
                    }
                    proof {
                        assert(quoted.deep_view() =~= qspec);
                    }
                    let joined = strutil::join_strings(&quoted, ", ");
                    let mut line = String::from_str("Model '");
                    line = line.concat(self.models[j].name.as_str());
                    line = line.concat("' references undefined external import(s): ");
                    line = line.concat(joined.as_str());
                    proof {
                        assert(line@ =~= report_line(
                            ms[find_id(ms, entries[k as int].0@)->0].name@,
                            entries[k as int].1.deep_view(),
                        )) by {
                            let fj = find_id(ms, entries[k as int].0@)->0;
                            lemma_find_id(ms, entries[k as int].0@);
                            if fj < j {
                                assert(ms[fj].unique_id@ != entries[k as int].0@);
                                assert(false);
                            }
                            if fj > j {
                                assert(ms[j as int].unique_id@ != entries[k as int].0@);
                                assert(false);
                            }
                        }
                    }
                    out.push(line);
                    proof {
                        assert(out.deep_view() =~= report_lines(ms, entries.take(k + 1)));
                    }
                },
                Option::None => {
                    proof {
                        match find_id(ms, entries[k as int].0@) {
                            Option::Some(fj) => {
                                assert(ms[fj].unique_id@ == entries[k as int].0@);
                                assert(false);
                            },
                            Option::None => {
                            },
                        }
                        assert(out.deep_view() =~= report_lines(ms, entries.take(k + 1)));
                    }
                },
            }
            k = k + 1;
        }
        proof {
            assert(entries.take(ne as int) =~= entries);
        }
        out
    }

    /// The models sorted by unique id ascending: the deterministic
    /// enumeration every emitter walks.
    pub fn get_execution_order(&self) -> (r: Vec<&SqlModel>)
        requires
            self.wf(),
        ensures
            r@.len() == self.models@.len(),
            Seq::new(r@.len(), |k: int| r@[k].unique_id@) == strutil::sort_names(
                model_ids(self.models@),
            ),
            forall|k: int| #![trigger r@[k]]
                0 <= k < r@.len() ==> (find_id(self.models@, r@[k].unique_id@) is Some && *(
                r@[k]) == self.models@[find_id(self.models@, r@[k].unique_id@)->0]),
    {
        let ghost ms = self.models@;
        let n: usize = self.models.len();
        let mut ids: Vec<String> = Vec::new();
        let mut i: usize = 0;
        proof {
            assert(ids.deep_view() =~= model_ids(ms).take(0));
        }
        while i < n
            invariant
                ms == self.models@,
                n == ms.len(),
                0 <= i <= n,
                ids@.len() == i,
                forall|j: int| 0 <= j < i ==> ids.deep_view()[j] == model_ids(ms)[j],
            decreases n - i,
        {
            ids.push(self.models[i].unique_id.clone());
            i = i + 1;
        }
        proof {
            assert(ids.deep_view() =~= model_ids(ms));
        }
        let sorted = strutil::sorted_strings(&ids);
        proof {
            strutil::lemma_sort_names_properties(model_ids(ms));
        }
        let mut out: Vec<&SqlModel> = Vec::new();
        let ghost sv = strutil::sort_names(model_ids(ms));
        let mut k: usize = 0;
        while k < n
            invariant
                ms == self.models@,
                self.wf(),
                n == ms.len(),
                sorted.deep_view() == sv,
                sv == strutil::sort_names(model_ids(ms)),
                sv.len() == n,
                0 <= k <= n,
                out@.len() == k,
                forall|k2: int| 0 <= k2 < k ==> (#[trigger] out@[k2]).unique_id@ == sv[k2],
                forall|k2: int| #![trigger out@[k2]]
                    0 <= k2 < k ==> (find_id(ms, out@[k2].unique_id@) is Some && *(out@[k2])
                        == ms[find_id(ms, out@[k2].unique_id@)->0]),
            decreases n - k,
        {
            proof {
                assert(sorted.deep_view()[k as int] == sv[k as int]);
                assert(sv.contains(sv[k as int]));
                strutil::lemma_sort_names_properties(model_ids(ms));
                assert(model_ids(ms).contains(sv[k as int]));
            }
            match self.find_index(sorted[k].as_str()) {
                Option::Some(j) => {
                    let mref = &self.models[j];
                    proof {
                        assert(*mref == ms[j as int]);
                        assert(mref.unique_id@ == sv[k as int]);
                        lemma_find_id_unique(ms, mref.unique_id@, j as int);
                    }
                    out.push(mref);
                },
                Option::None => {
                    proof {
                        let wi = choose|wi: int|
                            0 <= wi < model_ids(ms).len() && model_ids(ms)[wi] == sv[k as int];
                        assert(ms[wi].unique_id@ == sv[k as int]);
                        assert(false);
                    }
                    // unreachable: every sorted id names a model
                    return out;
                },
            }
            k = k + 1;
        }
        proof {
            assert(Seq::new(out@.len(), |k2: int| out@[k2].unique_id@) =~= sv);

        }
        out
    }
}

// ----------------------------------------------------------------------
// Cycle detection.
// ----------------------------------------------------------------------

/// A genuine cycle: every listed id names a model, and each one lists the
/// next — the first following the last — among its upstream models.
pub open spec fn cycle_sound(ms: Seq<SqlModel>, cyc: Seq<Seq<char>>) -> bool {
    &&& cyc.len() >= 1
    &&& (forall|k: int|
        0 <= k < cyc.len() ==> (#[trigger] find_id(ms, cyc[k])) is Some && ms[find_id(
            ms,
            cyc[k],
        )->0].upstream_models.deep_view().contains(
            cyc[if k + 1 == cyc.len() {
                0int
            } else {
                k + 1
            }],
        ))
}

/// The first repeated position in a walk, if any.
fn find_duplicate(path: &Vec<usize>) -> (r: Option<(usize, usize)>)
    ensures
        (match r {
            Option::Some(ab) => ab.0 < ab.1 && ab.1 < path@.len() && path@[ab.0 as int]
                == path@[ab.1 as int],
            Option::None => forall|x: int, y: int|
                0 <= x < y < path@.len() ==> path@[x] != path@[y],
        }),
{
    let n: usize = path.len();
    let mut a: usize = 0;
    while a < n
        invariant
            n == path@.len(),
            0 <= a <= n,
            forall|x: int, y: int| 0 <= x < a && x < y < n ==> path@[x] != path@[y],
        decreases n - a,
    {
        let mut b: usize = a + 1;
        while b < n
            invariant
                n == path@.len(),
                0 <= a < n,
                a < b <= n,
                forall|x: int, y: int| 0 <= x < a && x < y < n ==> path@[x] != path@[y],
                forall|y: int| a < y < b ==> path@[a as int] != path@[y],
            decreases n - b,
        {
            if path[a] == path[b] {
                return Option::Some((a, b));
            }
            b = b + 1;
        }
        a = a + 1;
    }
    Option::None
}

/// A walk longer than the model count over model positions must repeat one.
proof fn lemma_walk_repeats(path: Seq<usize>, n: int)
    requires
        n >= 0,
        path.len() > n,
        forall|k: int| 0 <= k < path.len() ==> (#[trigger] path[k]) < n,
    ensures
        exists|x: int, y: int| 0 <= x < y < path.len() && path[x] == path[y],
{
    if forall|x: int, y: int| 0 <= x < y < path.len() ==> path[x] != path[y] {
        let ints = Seq::new(path.len(), |k: int| path[k] as int);
        assert(ints.no_duplicates()) by {
            assert forall|x: int, y: int|
                0 <= x < ints.len() && 0 <= y < ints.len() && x != y implies ints[x]
                != ints[y] by {
                if x < y {
                    assert(path[x] != path[y]);
                } else {
                    assert(path[y] != path[x]);
                }
            }
        }
        ints.unique_seq_to_set();
        vstd::set_lib::lemma_int_range(0, n);
        assert(ints.to_set().subset_of(vstd::set_lib::set_int_range(0, n))) by {
            assert forall|v: int| #[trigger] ints.to_set().contains(v)
                implies vstd::set_lib::set_int_range(0, n).contains(v) by {
                assert(ints.contains(v));
                let k = choose|k: int| 0 <= k < ints.len() && ints[k] == v;
                assert(path[k] < n);
            }
        }
        vstd::set_lib::lemma_len_subset(
            ints.to_set(),
            vstd::set_lib::set_int_range(0, n),
        );
        assert(ints.to_set().len() == path.len() > n);
        assert(false);
    }
}

impl SqlModelCollection {
    /// Whether an id already stands in one of the reported cycles.
    fn id_in_cycles(cycles: &Vec<Vec<String>>, id: &str) -> (r: bool)
        ensures
            cycles@.len() == 0 ==> !r,
    {
        let n: usize = cycles.len();
        let mut i: usize = 0;
        while i < n
            invariant
                n == cycles@.len(),
                0 <= i <= n,
            decreases n - i,
        {
            if strutil::vec_contains_str(&cycles[i], id) {
                return true;
            }
            i = i + 1;
        }
        false
    }

    /// An unassigned upstream neighbour of the model at `cur`, if one is
    /// held.
    fn unassigned_upstream(&self, cur: usize) -> (r: Option<usize>)
        requires
            self.wf(),
            cur < self.models@.len(),
        ensures
            (match r {
                Option::Some(j) => j < self.models@.len() && self.models@[j as int].depth is None
                    && self.models@[cur as int].upstream_models.deep_view().contains(
                    self.models@[j as int].unique_id@,
                ),
                Option::None => forall|u: Seq<char>|
                    #[trigger] self.models@[cur as int].upstream_models.deep_view().contains(u)
                        ==> depth_of_id(self.models@, u) is Some,
            }),
    {
        let ghost ms = self.models@;
        let ghost updv = self.models@[cur as int].upstream_models.deep_view();
        let nu: usize = self.models[cur].upstream_models.len();
        let mut t: usize = 0;
        while t < nu
            invariant
                self.wf(),
                ms == self.models@,
                cur < ms.len(),
                updv == ms[cur as int].upstream_models.deep_view(),
                nu == ms[cur as int].upstream_models@.len(),
                0 <= t <= nu,
                forall|k: int| 0 <= k < t ==> depth_of_id(ms, #[trigger] updv[k]) is Some,
            decreases nu - t,
        {
            let u = &self.models[cur].upstream_models[t];
            proof {
                assert(updv[t as int] == u@);
                assert(updv.contains(u@));
            }
            match self.find_index(u.as_str()) {
                Option::Some(j) => {
                    proof {
                        lemma_find_id_unique(ms, u@, j as int);
                    }
                    let unassigned = match self.models[j].depth {
                        Option::Some(_) => false,
                        Option::None => true,
                    };
                    if unassigned {
                        return Option::Some(j);
                    }
                    proof {
                        assert(depth_of_id(ms, updv[t as int]) is Some);
                    }
                },
                Option::None => {
                    proof {
                        assert(neighbour_ids_exist(ms));
                        let j = choose|j: int|
                            0 <= j < ms.len() && #[trigger] ms[j].unique_id@ == u@;
                        assert(ms[j].unique_id@ != u@);
                        assert(false);
                    }
                },
            }
            t = t + 1;
        }
        proof {
            assert forall|u: Seq<char>| #[trigger] updv.contains(u) implies depth_of_id(
                ms,
                u,
            ) is Some by {
                let k = choose|k: int| 0 <= k < updv.len() && updv[k] == u;
            }
        }
        Option::None
    }

    /// Reports cycles of the dependency graph: from every model left
    /// without a depth, the walk follows upstream neighbours also left
    /// without one until a model repeats, and lists the loop so closed.
    /// Every reported cycle is genuine; an acyclic graph, where every model
    /// carries a depth, reports none; and after depth assignment, a model
    /// left without a depth guarantees that some cycle is reported.
    #[verifier::rlimit(100)]
    pub fn detect_cycles(&self) -> (r: Vec<Vec<String>>)
        requires
            self.wf(),
        ensures
            forall|ci: int|
                0 <= ci < r@.len() ==> cycle_sound(self.models@, (#[trigger] r@[ci]).deep_view()),
            (forall|i: int|
                0 <= i < self.models@.len() ==> (#[trigger] self.models@[i].depth) is Some)
                ==> r@.len() == 0,
            (depths_assigned(self.models@) && (exists|i: int|
                0 <= i < self.models@.len() && (#[trigger] self.models@[i].depth) is None))
                ==> r@.len() > 0,
    {
        let ghost ms = self.models@;
        let n: usize = self.models.len();
        let mut out: Vec<Vec<String>> = Vec::new();
        let mut s: usize = 0;
        while s < n
            invariant
                self.wf(),
                ms == self.models@,
                n == ms.len(),
                0 <= s <= n,
                forall|ci: int|
                    0 <= ci < out@.len() ==> cycle_sound(ms, (#[trigger] out@[ci]).deep_view()),
                (forall|i: int| 0 <= i < ms.len() ==> (#[trigger] ms[i].depth) is Some)
                    ==> out@.len() == 0,
                (depths_assigned(ms) && (exists|i: int|
                    0 <= i < s && (#[trigger] ms[i].depth) is None)) ==> out@.len() > 0,
            decreases n - s,
        {
            let start_unassigned = match self.models[s].depth {
                Option::Some(_) => false,
                Option::None => true,
            };
            if start_unassigned && !Self::id_in_cycles(&out, self.models[s].unique_id.as_str()) {
                let mut path: Vec<usize> = Vec::new();
                path.push(s);
                let mut gave_up = false;
                loop
                    invariant_except_break
                        !gave_up,
                    invariant
                        self.wf(),
                        ms == self.models@,
                        n == ms.len(),
                        1 <= path@.len() <= n + 1,
                        forall|t: int| 0 <= t < path@.len() ==> (#[trigger] path@[t]) < n,
                        forall|t: int|
                            0 <= t < path@.len() ==> ms[(#[trigger] path@[t]) as int].depth is None,
                        forall|t: int|
                            0 <= t < path@.len() - 1
                                ==> ms[(#[trigger] path@[t]) as int].upstream_models.deep_view().contains(
                                ms[path@[t + 1] as int].unique_id@,
                            ),
                    ensures
                        gave_up || path@.len() > n,
                        1 <= path@.len() <= n + 1,
                        forall|t: int| 0 <= t < path@.len() ==> (#[trigger] path@[t]) < n,
                        forall|t: int|
                            0 <= t < path@.len() - 1
                                ==> ms[(#[trigger] path@[t]) as int].upstream_models.deep_view().contains(
                                ms[path@[t + 1] as int].unique_id@,
                            ),
                        gave_up ==> (exists|c2: int|
                            0 <= c2 < ms.len() && (#[trigger] ms[c2].depth) is None && (forall|
                                u: Seq<char>,
                            |
                                #[trigger] ms[c2].upstream_models.deep_view().contains(u)
                                    ==> depth_of_id(ms, u) is Some)),
                    decreases n + 1 - path@.len(),
                {
                    if path.len() > n {
                        break ;
                    }
                    let cur = path[path.len() - 1];
                    proof {
                        assert(ms[cur as int].depth is None);
                    }
                    match self.unassigned_upstream(cur) {
                        Option::Some(j) => {
                            let ghost prevpath = path@;
                            path.push(j);
                            proof {
                                assert(path@ =~= prevpath.push(j));
                            }
                        },
                        Option::None => {
                            gave_up = true;
                            proof {
                                assert((0 <= cur as int) && ((cur as int) < ms.len()));
                                assert(ms[cur as int].depth is None);
                                assert(forall|u: Seq<char>|
                                    #[trigger] ms[cur as int].upstream_models.deep_view().contains(
                                        u,
                                    ) ==> depth_of_id(ms, u) is Some);
                                assert((exists|c2: int|
                                    0 <= c2 < ms.len() && (#[trigger] ms[c2].depth) is None && (
                                    forall|u: Seq<char>|
                                        #[trigger] ms[c2].upstream_models.deep_view().contains(u)
                                            ==> depth_of_id(ms, u) is Some)));
                            }
                            break ;
                        },
                    }
                }
                if gave_up {
                    proof {
                        if depths_assigned(ms) {
                            let c2 = choose|c2: int|
                                0 <= c2 < ms.len() && (#[trigger] ms[c2].depth) is None && (forall|
                                    u: Seq<char>,
                                |
                                    #[trigger] ms[c2].upstream_models.deep_view().contains(u)
                                        ==> depth_of_id(ms, u) is Some);
                            let u = choose|u: Seq<char>|
                                #[trigger] ms[c2].upstream_models.deep_view().contains(u)
                                    && depth_of_id(ms, u) is None;
                            assert(false);
                        }
                    }
                }
                if !gave_up {
                    match find_duplicate(&path) {
                        Option::Some((a, b)) => {
                            let mut cyc: Vec<String> = Vec::new();
                            let mut t: usize = a;
                            while t < b
                                invariant
                                    self.wf(),
                                    ms == self.models@,
                                    n == ms.len(),
                                    a < b < path@.len(),
                                    path@[a as int] == path@[b as int],
                                    forall|t2: int|
                                        0 <= t2 < path@.len() ==> (#[trigger] path@[t2]) < n,
                                    forall|t2: int|
                                        0 <= t2 < path@.len() - 1
                                            ==> ms[(#[trigger] path@[t2]) as int].upstream_models.deep_view().contains(
                                            ms[path@[t2 + 1] as int].unique_id@,
                                        ),
                                    a <= t <= b,
                                    cyc@.len() == t - a,
                                    forall|k: int|
                                        0 <= k < t - a ==> cyc.deep_view()[k]
                                            == ms[path@[a + k] as int].unique_id@,
                                decreases b - t,
                            {
                                let ghost prevseq = cyc@;
                                let ghost prevdv = cyc.deep_view();
                                cyc.push(self.models[path[t]].unique_id.clone());
                                proof {
                                    assert forall|k: int|
                                        0 <= k < t + 1 - a implies cyc.deep_view()[k]
                                        == ms[path@[a + k] as int].unique_id@ by {
                                        if k < t - a {
                                            assert(cyc@[k] == prevseq[k]);
                                            assert(cyc.deep_view()[k] == cyc@[k]@);
                                            assert(prevdv[k] == prevseq[k]@);
                                        } else {
                                            assert(cyc.deep_view()[k] == ms[path@[t as int] as int].unique_id@);
                                        }
                                    }
                                }
                                t = t + 1;
                            }
                            proof {
                                let cv = cyc.deep_view();
                                assert(cycle_sound(ms, cv)) by {
                                    assert(cv.len() == b - a >= 1);
                                    assert forall|k: int|
                                        0 <= k < cv.len() implies (#[trigger] find_id(
                                        ms,
                                        cv[k],
                                    )) is Some && ms[find_id(
                                        ms,
                                        cv[k],
                                    )->0].upstream_models.deep_view().contains(
                                        cv[if k + 1 == cv.len() {
                                            0int
                                        } else {
                                            k + 1
                                        }],
                                    ) by {
                                        let pi = path@[a + k] as int;
                                        assert(cv[k] == ms[pi].unique_id@);
                                        lemma_find_id_unique(ms, cv[k], pi);
                                        if k + 1 == cv.len() {
                                            assert(ms[pi].upstream_models.deep_view().contains(
                                                ms[path@[a + k + 1] as int].unique_id@,
                                            ));
                                            assert(path@[a + k + 1] == path@[b as int]);
                                            assert(path@[b as int] == path@[a as int]);
                                            assert(cv[0] == ms[path@[a as int] as int].unique_id@);
                                        } else {
                                            assert(ms[pi].upstream_models.deep_view().contains(
                                                ms[path@[a + k + 1] as int].unique_id@,
                                            ));
                                            assert(cv[k + 1] == ms[path@[a + k + 1] as int].unique_id@);
                                        }
                                    }
                                }
                            }
                            out.push(cyc);
                        },
                        Option::None => {
                            proof {
                                lemma_walk_repeats(path@, n as int);
                                let (x, y) = choose|x: int, y: int|
                                    0 <= x < y < path@.len() && path@[x] == path@[y];
                                assert(false);
                            }
                        },
                    }
                }
            }
            s = s + 1;
        }
        out
    }
}

} // verus!
