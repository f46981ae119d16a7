//! The emitters: text, DOT, JSON and YAML over a model collection.
//!
//! Every multi-element field is sorted ascending before it is written, and
//! every emitter's output is pinned to a function of the collection's state,
//! so two runs over the same collection give the same bytes.

use vstd::prelude::*;
use vstd::string::StrSliceExecFns;
use vstd::string::StringExecFns;

use crate::collection::find_id;
use crate::collection::model_ids;
use crate::collection::SqlModelCollection;
use crate::model::col_names;
use crate::model::find_col_index;
use crate::model::ColumnInfo;
use crate::model::SqlModel;
use crate::strutil;

verus! {

/// JSON string escaping: quotes and backslashes get a backslash.
pub open spec fn json_escape(s: Seq<char>) -> Seq<char>
    decreases s,
{
    if s.len() == 0 {
        Seq::empty()
    } else {
        json_escape(s.drop_last()) + (if s.last() == '"' || s.last() == '\\' {
            seq!['\\', s.last()]
        } else {
            seq![s.last()]
        })
    }
}

/// A JSON string literal.
pub open spec fn jstr(s: Seq<char>) -> Seq<char> {
    seq!['"'] + json_escape(s) + seq!['"']
}

/// An optional JSON string: `null` where absent.
pub open spec fn jopt(o: Option<Seq<char>>) -> Seq<char> {
    match o {
        Option::Some(s) => jstr(s),
        Option::None => "null"@,
    }
}

/// A JSON array of string literals.
pub open spec fn jlist(items: Seq<Seq<char>>) -> Seq<char> {
    "["@ + strutil::join_with(Seq::new(items.len(), |i: int| jstr(items[i])), ", "@) + "]"@
}

/// An optional JSON number: `null` where absent.
pub open spec fn jnum(o: Option<usize>) -> Seq<char> {
    match o {
        Option::Some(v) => strutil::dec_str(v as int),
        Option::None => "null"@,
    }
}

/// Renders a JSON string literal.
pub fn jstr_of(s: &str) -> (r: String)
    ensures
        r@ == jstr(s@),
{
    let n: usize = s.unicode_len();
    let mut out = String::new();
    strutil::push_char(&mut out, '"');
    let mut i: usize = 0;
    while i < n
        invariant
            n == s@.len(),
            0 <= i <= n,
            out@ == seq!['"'] + json_escape(s@.take(i as int)),
        decreases n - i,
    {
        let c = s.get_char(i);
        if c == '"' || c == '\\' {
            strutil::push_char(&mut out, '\\');
        }
        strutil::push_char(&mut out, c);
        proof {
            assert(s@.take(i + 1).drop_last() =~= s@.take(i as int));
            assert(s@.take(i + 1).last() == s@[i as int]);
            assert(out@ =~= seq!['"'] + json_escape(s@.take(i + 1)));
        }
        i = i + 1;
    }
    strutil::push_char(&mut out, '"');
    proof {
        assert(s@.take(n as int) =~= s@);
        assert(out@ =~= jstr(s@));
    }
    out
}

/// Renders an optional JSON string.
pub fn jopt_of(o: &Option<String>) -> (r: String)
    ensures
        r@ == jopt(o.deep_view()),
{
    match o {
        Option::Some(s) => jstr_of(s.as_str()),
        Option::None => {
            let out = String::from_str("null");
            out
        },
    }
}

/// Renders an optional JSON number.
pub fn jnum_of(o: &Option<usize>) -> (r: String)
    ensures
        r@ == jnum(*o),
{
    match o {
        Option::Some(v) => strutil::usize_to_string(*v),
        Option::None => String::from_str("null"),
    }
}

/// Renders a JSON array of the strings sorted ascending.
pub fn jlist_sorted(v: &Vec<String>) -> (r: String)
    ensures
        r@ == jlist(strutil::sort_names(v.deep_view())),
{
    let sorted = strutil::sorted_strings(v);
    let ghost sv = strutil::sort_names(v.deep_view());
    let ghost jspec = Seq::new(sv.len(), |i: int| jstr(sv[i]));
    let n: usize = sorted.len();
    proof {
        strutil::lemma_sort_names_properties(v.deep_view());
    }
    let mut items: Vec<String> = Vec::new();
    let mut i: usize = 0;
    while i < n
        invariant
            sorted.deep_view() == sv,
            jspec == Seq::new(sv.len(), |k: int| jstr(sv[k])),
            n == sv.len(),
            n == sorted@.len(),
            0 <= i <= n,
            items@.len() == i,
            forall|j: int| 0 <= j < i ==> items.deep_view()[j] == jspec[j],
        decreases n - i,
    {
        let piece = jstr_of(sorted[i].as_str());
        items.push(piece);
        i = i + 1;
    }
    proof {
        assert(items.deep_view() =~= jspec);
    }
    let joined = strutil::join_strings(&items, ", ");
    let mut out = String::from_str("[");
    out = out.concat(joined.as_str());
    out = out.concat("]");
    proof {
        assert(out@ =~= jlist(sv));
    }
    out
}

/// A YAML scalar: the raw text, or `null` where absent.
pub open spec fn yopt(o: Option<Seq<char>>) -> Seq<char> {
    match o {
        Option::Some(s) => s,
        Option::None => "null"@,
    }
}

/// A YAML flow list of the strings, sorted ascending.
pub open spec fn ylist(items: Seq<Seq<char>>) -> Seq<char> {
    "["@ + strutil::join_with(items, ", "@) + "]"@
}

/// Renders an optional YAML scalar.
pub fn yopt_of(o: &Option<String>) -> (r: String)
    ensures
        r@ == yopt(o.deep_view()),
{
    match o {
        Option::Some(s) => s.clone(),
        Option::None => String::from_str("null"),
    }
}

/// Renders a YAML flow list of the strings sorted ascending.
pub fn ylist_sorted(v: &Vec<String>) -> (r: String)
    ensures
        r@ == ylist(strutil::sort_names(v.deep_view())),
{
    let sorted = strutil::sorted_strings(v);
    let joined = strutil::join_strings(&sorted, ", ");
    let mut out = String::from_str("[");
    out = out.concat(joined.as_str());
    out = out.concat("]");
    proof {
        assert(out@ =~= ylist(strutil::sort_names(v.deep_view())));
    }
    out
}

// ----------------------------------------------------------------------
// Output records.
// ----------------------------------------------------------------------

/// One column as the machine-readable emitters present it.
pub struct YamlOutputColumn {
    pub name: String,
    pub description: Option<String>,
    pub data_type: Option<String>,
}

/// One model as the YAML emitter presents it.
pub struct YamlOutputModel {
    pub name: String,
    pub path: String,
    pub description: Option<String>,
    pub materialized: Option<String>,
    pub database: Option<String>,
    pub schema: Option<String>,
    pub object_name: Option<String>,
    pub tags: Vec<String>,
    pub columns: Vec<YamlOutputColumn>,
    pub depends_on: Vec<String>,
    pub referenced_by: Vec<String>,
    pub external_sources: Vec<String>,
    pub depth: Option<usize>,
}

/// The YAML emitter's whole document: a version and the models keyed and
/// ordered by unique id.
pub struct YamlOutput {
    pub version: i32,
    pub models: Vec<(String, YamlOutputModel)>,
}

/// One column of the JSON document.
pub struct JsonColumn {
    pub name: String,
    pub description: Option<String>,
    pub data_type: Option<String>,
}

/// One model of the JSON document.
pub struct JsonModel {
    pub name: String,
    pub path: String,
    pub description: Option<String>,
    pub materialized: Option<String>,
    pub database: Option<String>,
    pub schema: Option<String>,
    pub object_name: Option<String>,
    pub tags: Vec<String>,
    pub columns: Vec<JsonColumn>,
    pub depends_on: Vec<String>,
    pub referenced_by: Vec<String>,
    pub external_sources: Vec<String>,
    pub depth: Option<usize>,
}

/// The JSON document: the models keyed and ordered by unique id.
pub struct JsonOutput {
    pub models: Vec<(String, JsonModel)>,
}

/// What an output column copies from a stored column.
pub open spec fn out_col_matches(c: ColumnInfo, o: YamlOutputColumn) -> bool {
    &&& o.name@ == c.name@
    &&& o.description.deep_view() == c.description.deep_view()
    &&& o.data_type.deep_view() == c.data_type.deep_view()
}

/// The columns sorted by name, one output column per stored column.
pub open spec fn out_cols_match(cols: Seq<ColumnInfo>, os: Seq<YamlOutputColumn>) -> bool {
    &&& os.len() == strutil::sort_names(col_names(cols)).len()
    &&& (forall|k: int|
        0 <= k < os.len() ==> (#[trigger] os[k]).name@ == strutil::sort_names(col_names(cols))[k]
            && find_col_index(cols, os[k].name@) >= 0 && out_col_matches(
            cols[find_col_index(cols, os[k].name@)],
            os[k],
        ))
}

/// What an output model copies from a record: the scalar fields as they
/// stand, every list sorted ascending.
pub open spec fn out_model_matches(m: SqlModel, o: YamlOutputModel) -> bool {
    &&& o.name@ == m.name@
    &&& o.path@ == m.relative_file_path@
    &&& o.description.deep_view() == m.description.deep_view()
    &&& o.materialized.deep_view() == m.materialized.deep_view()
    &&& o.database.deep_view() == m.database.deep_view()
    &&& o.schema.deep_view() == m.schema.deep_view()
    &&& o.object_name.deep_view() == m.object_name.deep_view()
    &&& o.tags.deep_view() == strutil::sort_names(m.tags.deep_view())
    &&& out_cols_match(m.columns@, o.columns@)
    &&& o.depends_on.deep_view() == strutil::sort_names(m.upstream_models.deep_view())
    &&& o.referenced_by.deep_view() == strutil::sort_names(m.downstream_models.deep_view())
    &&& o.external_sources.deep_view() == strutil::sort_names(m.external_sources.deep_view())
    &&& o.depth == m.depth
}

/// What a JSON output column copies from a stored column.
pub open spec fn json_col_matches(c: ColumnInfo, o: JsonColumn) -> bool {
    &&& o.name@ == c.name@
    &&& o.description.deep_view() == c.description.deep_view()
    &&& o.data_type.deep_view() == c.data_type.deep_view()
}

/// The JSON columns sorted by name, one output column per stored column.
pub open spec fn json_cols_match(cols: Seq<ColumnInfo>, os: Seq<JsonColumn>) -> bool {
    &&& os.len() == strutil::sort_names(col_names(cols)).len()
    &&& (forall|k: int|
        0 <= k < os.len() ==> (#[trigger] os[k]).name@ == strutil::sort_names(col_names(cols))[k]
            && find_col_index(cols, os[k].name@) >= 0 && json_col_matches(
            cols[find_col_index(cols, os[k].name@)],
            os[k],
        ))
}

/// What a JSON output model copies from a record.
pub open spec fn json_model_matches(m: SqlModel, o: JsonModel) -> bool {
    &&& o.name@ == m.name@
    &&& o.path@ == m.relative_file_path@
    &&& o.description.deep_view() == m.description.deep_view()
    &&& o.materialized.deep_view() == m.materialized.deep_view()
    &&& o.database.deep_view() == m.database.deep_view()
    &&& o.schema.deep_view() == m.schema.deep_view()
    &&& o.object_name.deep_view() == m.object_name.deep_view()
    &&& o.tags.deep_view() == strutil::sort_names(m.tags.deep_view())
    &&& json_cols_match(m.columns@, o.columns@)
    &&& o.depends_on.deep_view() == strutil::sort_names(m.upstream_models.deep_view())
    &&& o.referenced_by.deep_view() == strutil::sort_names(m.downstream_models.deep_view())
    &&& o.external_sources.deep_view() == strutil::sort_names(m.external_sources.deep_view())
    &&& o.depth == m.depth
}

/// The first column of the given name, by scan.
fn find_column(cols: &Vec<ColumnInfo>, name: &str) -> (r: Option<usize>)
    ensures
        (match r {
            Option::Some(j) => j < cols@.len() && find_col_index(cols@, name@) == j,
            Option::None => find_col_index(cols@, name@) == -1,
        }),
{
    proof {
        crate::model::lemma_find_col_index(cols@, name@);
    }
    let n: usize = cols.len();
    let mut j: usize = 0;
    while j < n
        invariant
            n == cols@.len(),
            0 <= j <= n,
            forall|k: int| 0 <= k < j ==> (#[trigger] cols@[k]).name@ != name@,
        decreases n - j,
    {
        if strutil::str_eq(cols[j].name.as_str(), name) {
            proof {
                crate::model::lemma_find_col_index(cols@, name@);
                let fi = find_col_index(cols@, name@);
                if fi < j {
                    assert(cols@[fi].name@ == name@);
                    assert(false);
                }
                if fi > j {
                    assert(cols@[j as int].name@ != name@);
                    assert(false);
                }
            }
            return Option::Some(j);
        }
        j = j + 1;
    }
    proof {
        crate::model::lemma_find_col_index(cols@, name@);
        let fi = find_col_index(cols@, name@);
        if fi >= 0 {
            assert(cols@[fi].name@ == name@);
            assert(false);
        }
    }
    Option::None
}

/// The stored columns as output columns, sorted by name.
pub fn sorted_output_columns(cols: &Vec<ColumnInfo>) -> (r: Vec<YamlOutputColumn>)
    ensures
        out_cols_match(cols@, r@),
{
    let mut names: Vec<String> = Vec::new();
    let n: usize = cols.len();
    let mut i: usize = 0;
    while i < n
        invariant
            n == cols@.len(),
            0 <= i <= n,
            names@.len() == i,
            forall|j: int| 0 <= j < i ==> names.deep_view()[j] == col_names(cols@)[j],
        decreases n - i,
    {
        let ghost prevseq = names@;
        let ghost prevdv = names.deep_view();
        names.push(cols[i].name.clone());
        proof {
            assert forall|j: int| 0 <= j < i + 1 implies names.deep_view()[j] == col_names(
                cols@,
            )[j] by {
                if j < i {
                    assert(names@[j] == prevseq[j]);
                    assert(names.deep_view()[j] == names@[j]@);
                    assert(prevdv[j] == prevseq[j]@);
                } else {
                    assert(names.deep_view()[j] == cols@[i as int].name@);
                }
                assert(col_names(cols@)[j] == cols@[j].name@);
            }
        }
        i = i + 1;
    }
    proof {
        assert(names.deep_view() =~= col_names(cols@));
    }
    let sorted = strutil::sorted_strings(&names);
    let ghost sv = strutil::sort_names(col_names(cols@));
    proof {
        strutil::lemma_sort_names_properties(col_names(cols@));
    }
    let mut out: Vec<YamlOutputColumn> = Vec::new();
    let ns: usize = sorted.len();
    let mut k: usize = 0;
    while k < ns
        invariant
            n == cols@.len(),
            sorted.deep_view() == sv,
            sv == strutil::sort_names(col_names(cols@)),
            ns == sv.len(),
            0 <= k <= ns,
            out@.len() == k,
            forall|k2: int|
                0 <= k2 < k ==> (#[trigger] out@[k2]).name@ == sv[k2] && find_col_index(
                    cols@,
                    out@[k2].name@,
                ) >= 0 && out_col_matches(
                    cols@[find_col_index(cols@, out@[k2].name@)],
                    out@[k2],
                ),
        decreases ns - k,
    {
        proof {
            assert(sorted.deep_view()[k as int] == sv[k as int]);
            assert(sv.contains(sv[k as int]));
            strutil::lemma_sort_names_properties(col_names(cols@));
            assert(col_names(cols@).contains(sv[k as int]));
        }
        match find_column(cols, sorted[k].as_str()) {
            Option::Some(j) => {
                proof {
                    crate::model::lemma_find_col_index(cols@, sv[k as int]);
                    assert(cols@[j as int].name@ == sv[k as int]);
                }
                let c = &cols[j];
                let oc = YamlOutputColumn {
                    name: c.name.clone(),
                    description: match &c.description {
                        Option::Some(d) => Option::Some(d.clone()),
                        Option::None => Option::None,
                    },
                    data_type: match &c.data_type {
                        Option::Some(d) => Option::Some(d.clone()),
                        Option::None => Option::None,
                    },
                };
                proof {
                    assert(oc.name@ == sv[k as int]);
                    assert(out_col_matches(cols@[j as int], oc));
                }
                out.push(oc);
            },
            Option::None => {
                proof {
                    let wi = choose|wi: int|
                        0 <= wi < col_names(cols@).len() && col_names(cols@)[wi] == sv[k as int];
                    crate::model::lemma_find_col_index(cols@, sv[k as int]);
                    assert(cols@[wi].name@ == sv[k as int]);
                    assert(false);
                }
                return out;
            },
        }
        k = k + 1;
    }
    out
}

impl SqlModelCollection {
    /// The YAML document over this collection: version 1 and the models in
    /// unique-id order, every list sorted.
    pub fn to_yaml(&self) -> (r: YamlOutput)
        requires
            self.wf(),
        ensures
            r.version == 1,
            r.models@.len() == self.models@.len(),
            Seq::new(r.models@.len(), |k: int| r.models@[k].0@) == strutil::sort_names(
                model_ids(self.models@),
            ),
            forall|k: int|
                0 <= k < r.models@.len() ==> (find_id(
                    self.models@,
                    (#[trigger] r.models@[k]).0@,
                ) is Some && out_model_matches(
                    self.models@[find_id(self.models@, r.models@[k].0@)->0],
                    r.models@[k].1,
                )),
    {
        let order = self.get_execution_order();
        let ghost sv = strutil::sort_names(model_ids(self.models@));
        let n: usize = order.len();
        let mut out: Vec<(String, YamlOutputModel)> = Vec::new();
        let mut k: usize = 0;
        while k < n
            invariant
                self.wf(),
                n == order@.len(),
                n == self.models@.len(),
                sv == strutil::sort_names(model_ids(self.models@)),
                Seq::new(order@.len(), |k2: int| order@[k2].unique_id@) == sv,
                forall|k2: int| #![trigger order@[k2]]
                    0 <= k2 < n ==> (find_id(self.models@, order@[k2].unique_id@) is Some && *(
                    order@[k2]) == self.models@[find_id(self.models@, order@[k2].unique_id@)->0]),
                0 <= k <= n,
                out@.len() == k,
                forall|k2: int|
                    0 <= k2 < k ==> (#[trigger] out@[k2]).0@ == sv[k2],
                forall|k2: int|
                    0 <= k2 < k ==> (find_id(self.models@, (#[trigger] out@[k2]).0@) is Some
                        && out_model_matches(
                        self.models@[find_id(self.models@, out@[k2].0@)->0],
                        out@[k2].1,
                    )),
            decreases n - k,
        {
            let m: &SqlModel = order[k];
            proof {
                assert(order@[k as int].unique_id@ == sv[k as int]);
            }
            let entry = model_to_yaml_output(m);
            out.push((m.unique_id.clone(), entry));
            k = k + 1;
        }
        proof {
            assert(Seq::new(out@.len(), |k2: int| out@[k2].0@) =~= sv);
        }
        YamlOutput { version: 1, models: out }
    }
}

/// Converts one record into its YAML presentation.
pub fn model_to_yaml_output(m: &SqlModel) -> (r: YamlOutputModel)
    ensures
        out_model_matches(*m, r),
{
    broadcast use vstd::std_specs::vec::vec_clone_deep_view_proof;

    let tags = strutil::sorted_strings(&m.tags);
    let columns = sorted_output_columns(&m.columns);
    let depends_on = strutil::sorted_strings(&m.upstream_models);
    let referenced_by = strutil::sorted_strings(&m.downstream_models);
    let external_sources = strutil::sorted_strings(&m.external_sources);
    YamlOutputModel {
        name: m.name.clone(),
        path: m.relative_file_path.clone(),
        description: clone_opt(&m.description),
        materialized: clone_opt(&m.materialized),
        database: clone_opt(&m.database),
        schema: clone_opt(&m.schema),
        object_name: clone_opt(&m.object_name),
        tags,
        columns,
        depends_on,
        referenced_by,
        external_sources,
        depth: match m.depth {
            Option::Some(d) => Option::Some(d),
            Option::None => Option::None,
        },
    }
}

/// Clones an optional string.
fn clone_opt(o: &Option<String>) -> (r: Option<String>)
    ensures
        r.deep_view() == o.deep_view(),
{
    match o {
        Option::Some(s) => Option::Some(s.clone()),
        Option::None => Option::None,
    }
}

// ----------------------------------------------------------------------
// JSON text.
// ----------------------------------------------------------------------

/// One column as JSON text.
pub open spec fn json_col_seq(c: ColumnInfo) -> Seq<char> {
    "{\"name\": "@ + jstr(c.name@) + ", \"description\": "@ + jopt(c.description.deep_view())
        + ", \"data_type\": "@ + jopt(c.data_type.deep_view()) + "}"@
}

/// The columns as a JSON array, sorted by name.
pub open spec fn json_cols_seq(cols: Seq<ColumnInfo>) -> Seq<char> {
    let sorted = strutil::sort_names(col_names(cols));
    "["@ + strutil::join_with(
        Seq::new(sorted.len(), |k: int| json_col_seq(cols[find_col_index(cols, sorted[k])])),
        ", "@,
    ) + "]"@
}

/// One model as JSON text: scalars as they stand, lists sorted.
pub open spec fn json_model_seq(m: SqlModel) -> Seq<char> {
    "{\"name\": "@ + jstr(m.name@) + ", \"path\": "@ + jstr(m.relative_file_path@)
        + ", \"description\": "@ + jopt(m.description.deep_view()) + ", \"materialized\": "@
        + jopt(m.materialized.deep_view()) + ", \"database\": "@ + jopt(m.database.deep_view())
        + ", \"schema\": "@ + jopt(m.schema.deep_view()) + ", \"object_name\": "@ + jopt(
        m.object_name.deep_view(),
    ) + ", \"tags\": "@ + jlist(strutil::sort_names(m.tags.deep_view())) + ", \"columns\": "@
        + json_cols_seq(m.columns@) + ", \"depends_on\": "@ + jlist(
        strutil::sort_names(m.upstream_models.deep_view()),
    ) + ", \"referenced_by\": "@ + jlist(strutil::sort_names(m.downstream_models.deep_view()))
        + ", \"external_sources\": "@ + jlist(strutil::sort_names(m.external_sources.deep_view()))
        + ", \"depth\": "@ + jnum(m.depth) + "}"@
}

/// The entries of the JSON document, in unique-id order.
pub open spec fn json_entries(ms: Seq<SqlModel>) -> Seq<Seq<char>> {
    let sorted = strutil::sort_names(model_ids(ms));
    Seq::new(
        sorted.len(),
        |k: int| jstr(sorted[k]) + ": "@ + json_model_seq(ms[find_id(ms, sorted[k])->0]),
    )
}

/// The whole JSON document.
pub open spec fn json_render(ms: Seq<SqlModel>) -> Seq<char> {
    "{\"models\": {"@ + strutil::join_with(json_entries(ms), ", "@) + "}}"@
}

/// Renders the columns as a JSON array sorted by name.
fn render_json_cols(cols: &Vec<ColumnInfo>) -> (r: String)
    ensures
        r@ == json_cols_seq(cols@),
{
    let ocols = sorted_output_columns(cols);
    let ghost sorted = strutil::sort_names(col_names(cols@));
    let ghost espec = Seq::new(
        sorted.len(),
        |k: int| json_col_seq(cols@[find_col_index(cols@, sorted[k])]),
    );
    let n: usize = ocols.len();
    let mut items: Vec<String> = Vec::new();
    let mut k: usize = 0;
    while k < n
        invariant
            out_cols_match(cols@, ocols@),
            sorted == strutil::sort_names(col_names(cols@)),
            espec == Seq::new(
                sorted.len(),
                |k2: int| json_col_seq(cols@[find_col_index(cols@, sorted[k2])]),
            ),
            n == ocols@.len(),
            n == sorted.len(),
            0 <= k <= n,
            items@.len() == k,
            forall|j: int| 0 <= j < k ==> items.deep_view()[j] == espec[j],
        decreases n - k,
    {
        let oc = &ocols[k];
        let mut piece = String::from_str("{\"name\": ");
        let sub = jstr_of(oc.name.as_str());
        piece = piece.concat(sub.as_str());
        piece = piece.concat(", \"description\": ");
        let sub = jopt_of(&oc.description);
        piece = piece.concat(sub.as_str());
        piece = piece.concat(", \"data_type\": ");
        let sub = jopt_of(&oc.data_type);
        piece = piece.concat(sub.as_str());
        piece = piece.concat("}");
        proof {
            let ci = find_col_index(cols@, ocols@[k as int].name@);
            assert(out_col_matches(cols@[ci], ocols@[k as int]));
            assert(ocols@[k as int].name@ == sorted[k as int]);
            assert(piece@ =~= json_col_seq(cols@[find_col_index(cols@, sorted[k as int])]));
        }
        items.push(piece);
        k = k + 1;
    }
    proof {
        assert(items.deep_view() =~= espec);
    }
    let joined = strutil::join_strings(&items, ", ");
    let mut out = String::from_str("[");
    out = out.concat(joined.as_str());
    out = out.concat("]");
    proof {
        assert(out@ =~= json_cols_seq(cols@));
    }
    out
}

/// Renders one model as JSON text.
pub fn render_json_model(m: &SqlModel) -> (r: String)
    ensures
        r@ == json_model_seq(*m),
{
    let mut out = String::from_str("{\"name\": ");
    let piece = jstr_of(m.name.as_str());
    out = out.concat(piece.as_str());
    out = out.concat(", \"path\": ");
    let piece = jstr_of(m.relative_file_path.as_str());
    out = out.concat(piece.as_str());
    out = out.concat(", \"description\": ");
    let piece = jopt_of(&m.description);
    out = out.concat(piece.as_str());
    out = out.concat(", \"materialized\": ");
    let piece = jopt_of(&m.materialized);
    out = out.concat(piece.as_str());
    out = out.concat(", \"database\": ");
    let piece = jopt_of(&m.database);
    out = out.concat(piece.as_str());
    out = out.concat(", \"schema\": ");
    let piece = jopt_of(&m.schema);
    out = out.concat(piece.as_str());
    out = out.concat(", \"object_name\": ");
    let piece = jopt_of(&m.object_name);
    out = out.concat(piece.as_str());
    out = out.concat(", \"tags\": ");
    let piece = jlist_sorted(&m.tags);
    out = out.concat(piece.as_str());
    out = out.concat(", \"columns\": ");
    let piece = render_json_cols(&m.columns);
    out = out.concat(piece.as_str());
    out = out.concat(", \"depends_on\": ");
    let piece = jlist_sorted(&m.upstream_models);
    out = out.concat(piece.as_str());
    out = out.concat(", \"referenced_by\": ");
    let piece = jlist_sorted(&m.downstream_models);
    out = out.concat(piece.as_str());
    out = out.concat(", \"external_sources\": ");
    let piece = jlist_sorted(&m.external_sources);
    out = out.concat(piece.as_str());
    out = out.concat(", \"depth\": ");
    let piece = jnum_of(&m.depth);
    out = out.concat(piece.as_str());
    out = out.concat("}");
    proof {
        assert(out@ =~= json_model_seq(*m));
    }
    out
}

impl SqlModelCollection {
    /// The whole collection as one JSON document, keyed and ordered by
    /// unique id, every list sorted: a pure function of the held state.
    pub fn to_json_string(&self) -> (r: String)
        requires
            self.wf(),
        ensures
            r@ == json_render(self.models@),
    {
        let order = self.get_execution_order();
        let ghost sv = strutil::sort_names(model_ids(self.models@));
        let ghost espec = json_entries(self.models@);
        let n: usize = order.len();
        let mut items: Vec<String> = Vec::new();
        let mut k: usize = 0;
        while k < n
            invariant
                self.wf(),
                n == order@.len(),
                sv == strutil::sort_names(model_ids(self.models@)),
                espec == json_entries(self.models@),
                espec.len() == sv.len(),
                sv.len() == n,
                Seq::new(order@.len(), |k2: int| order@[k2].unique_id@) == sv,
                forall|k2: int| #![trigger order@[k2]]
                    0 <= k2 < n ==> (find_id(self.models@, order@[k2].unique_id@) is Some && *(
                    order@[k2]) == self.models@[find_id(self.models@, order@[k2].unique_id@)->0]),
                0 <= k <= n,
                items@.len() == k,
                forall|j: int| 0 <= j < k ==> items.deep_view()[j] == espec[j],
            decreases n - k,
        {
            let m: &SqlModel = order[k];
            proof {
                assert(order@[k as int].unique_id@ == sv[k as int]);
            }
            let mut piece = jstr_of(m.unique_id.as_str());
            piece = piece.concat(": ");
            let body = render_json_model(m);
            piece = piece.concat(body.as_str());
            proof {
                assert(piece@ =~= espec[k as int]);
            }
            items.push(piece);
            k = k + 1;
        }
        proof {
            assert(items.deep_view() =~= espec);
        }
        let joined = strutil::join_strings(&items, ", ");
        let mut out = String::from_str("{\"models\": {");
        out = out.concat(joined.as_str());
        out = out.concat("}}");
        proof {
            assert(out@ =~= json_render(self.models@));
        }
        out
    }
}

// ----------------------------------------------------------------------
// YAML text.
// ----------------------------------------------------------------------

/// One column as a YAML block item.
pub open spec fn yaml_col_seq(c: ColumnInfo) -> Seq<char> {
    "      - name: "@ + c.name@ + "\n        description: "@ + yopt(c.description.deep_view())
        + "\n        data_type: "@ + yopt(c.data_type.deep_view()) + "\n"@
}

/// The columns section: a flow empty list, or one block item per column in
/// name order.
pub open spec fn yaml_cols_seq(cols: Seq<ColumnInfo>) -> Seq<char> {
    let sorted = strutil::sort_names(col_names(cols));
    if sorted.len() == 0 {
        " []\n"@
    } else {
        "\n"@ + strutil::join_with(
            Seq::new(sorted.len(), |k: int| yaml_col_seq(cols[find_col_index(cols, sorted[k])])),
            ""@,
        )
    }
}

/// One model as a YAML block, keyed by its unique id.
pub open spec fn yaml_model_seq(id: Seq<char>, m: SqlModel) -> Seq<char> {
    "  "@ + id + ":\n    name: "@ + m.name@ + "\n    path: "@ + m.relative_file_path@
        + "\n    description: "@ + yopt(m.description.deep_view()) + "\n    materialized: "@
        + yopt(m.materialized.deep_view()) + "\n    database: "@ + yopt(m.database.deep_view())
        + "\n    schema: "@ + yopt(m.schema.deep_view()) + "\n    object_name: "@ + yopt(
        m.object_name.deep_view(),
    ) + "\n    tags: "@ + ylist(strutil::sort_names(m.tags.deep_view())) + "\n    columns:"@
        + yaml_cols_seq(m.columns@) + "    depends_on: "@ + ylist(
        strutil::sort_names(m.upstream_models.deep_view()),
    ) + "\n    referenced_by: "@ + ylist(strutil::sort_names(m.downstream_models.deep_view()))
        + "\n    external_sources: "@ + ylist(
        strutil::sort_names(m.external_sources.deep_view()),
    ) + "\n    depth: "@ + jnum(m.depth) + "\n"@
}

/// The whole YAML document, models in unique-id order.
pub open spec fn yaml_render(ms: Seq<SqlModel>) -> Seq<char> {
    let sorted = strutil::sort_names(model_ids(ms));
    "version: 1\nmodels:\n"@ + strutil::join_with(
        Seq::new(
            sorted.len(),
            |k: int| yaml_model_seq(sorted[k], ms[find_id(ms, sorted[k])->0]),
        ),
        ""@,
    )
}

/// Renders the columns section of one model.
fn render_yaml_cols(cols: &Vec<ColumnInfo>) -> (r: String)
    ensures
        r@ == yaml_cols_seq(cols@),
{
    let ocols = sorted_output_columns(cols);
    let ghost sorted = strutil::sort_names(col_names(cols@));
    let ghost espec = Seq::new(
        sorted.len(),
        |k: int| yaml_col_seq(cols@[find_col_index(cols@, sorted[k])]),
    );
    let n: usize = ocols.len();
    if n == 0 {
        let out = String::from_str(" []\n");
        proof {
            assert(out@ =~= yaml_cols_seq(cols@));
        }
        return out;
    }
    let mut items: Vec<String> = Vec::new();
    let mut k: usize = 0;
    while k < n
        invariant
            out_cols_match(cols@, ocols@),
            sorted == strutil::sort_names(col_names(cols@)),
            espec == Seq::new(
                sorted.len(),
                |k2: int| yaml_col_seq(cols@[find_col_index(cols@, sorted[k2])]),
            ),
            n == ocols@.len(),
            n == sorted.len(),
            0 <= k <= n,
            items@.len() == k,
            forall|j: int| 0 <= j < k ==> items.deep_view()[j] == espec[j],
        decreases n - k,
    {
        let oc = &ocols[k];
        let mut piece = String::from_str("      - name: ");
        piece = piece.concat(oc.name.as_str());
        piece = piece.concat("\n        description: ");
        let sub = yopt_of(&oc.description);
        piece = piece.concat(sub.as_str());
        piece = piece.concat("\n        data_type: ");
        let sub = yopt_of(&oc.data_type);
        piece = piece.concat(sub.as_str());
        piece = piece.concat("\n");
        proof {
            let ci = find_col_index(cols@, ocols@[k as int].name@);
            assert(out_col_matches(cols@[ci], ocols@[k as int]));
            assert(ocols@[k as int].name@ == sorted[k as int]);
            assert(piece@ =~= yaml_col_seq(cols@[find_col_index(cols@, sorted[k as int])]));
        }
        items.push(piece);
        k = k + 1;
    }
    proof {
        assert(items.deep_view() =~= espec);
    }
    let joined = strutil::join_strings(&items, "");
    let mut out = String::from_str("\n");
    out = out.concat(joined.as_str());
    proof {
        assert(out@ =~= yaml_cols_seq(cols@));
    }
    out
}

/// Renders one model's YAML block.
pub fn render_yaml_model(id: &str, m: &SqlModel) -> (r: String)
    ensures
        r@ == yaml_model_seq(id@, *m),
{
    let mut out = String::from_str("  ");
    out = out.concat(id);
    out = out.concat(":\n    name: ");
    out = out.concat(m.name.as_str());
    out = out.concat("\n    path: ");
    out = out.concat(m.relative_file_path.as_str());
    out = out.concat("\n    description: ");
    let piece = yopt_of(&m.description);
    out = out.concat(piece.as_str());
    out = out.concat("\n    materialized: ");
    let piece = yopt_of(&m.materialized);
    out = out.concat(piece.as_str());
    out = out.concat("\n    database: ");
    let piece = yopt_of(&m.database);
    out = out.concat(piece.as_str());
    out = out.concat("\n    schema: ");
    let piece = yopt_of(&m.schema);
    out = out.concat(piece.as_str());
    out = out.concat("\n    object_name: ");
    let piece = yopt_of(&m.object_name);
    out = out.concat(piece.as_str());
    out = out.concat("\n    tags: ");
    let piece = ylist_sorted(&m.tags);
    out = out.concat(piece.as_str());
    out = out.concat("\n    columns:");
    let piece = render_yaml_cols(&m.columns);
    out = out.concat(piece.as_str());
    out = out.concat("    depends_on: ");
    let piece = ylist_sorted(&m.upstream_models);
    out = out.concat(piece.as_str());
    out = out.concat("\n    referenced_by: ");
    let piece = ylist_sorted(&m.downstream_models);
    out = out.concat(piece.as_str());
    out = out.concat("\n    external_sources: ");
    let piece = ylist_sorted(&m.external_sources);
    out = out.concat(piece.as_str());
    out = out.concat("\n    depth: ");
    let piece = jnum_of(&m.depth);
    out = out.concat(piece.as_str());
    out = out.concat("\n");
    proof {
        assert(out@ =~= yaml_model_seq(id@, *m));
    }
    out
}

impl SqlModelCollection {
    /// The whole collection as one YAML document, models in unique-id order,
    /// every list sorted: a pure function of the held state.
    pub fn to_yaml_string(&self) -> (r: String)
        requires
            self.wf(),
        ensures
            r@ == yaml_render(self.models@),
    {
        let order = self.get_execution_order();
        let ghost sv = strutil::sort_names(model_ids(self.models@));
        let ghost espec = Seq::new(
            sv.len(),
            |k: int| yaml_model_seq(sv[k], self.models@[find_id(self.models@, sv[k])->0]),
        );
        let n: usize = order.len();
        let mut items: Vec<String> = Vec::new();
        let mut k: usize = 0;
        while k < n
            invariant
                self.wf(),
                n == order@.len(),
                sv == strutil::sort_names(model_ids(self.models@)),
                espec == Seq::new(
                    sv.len(),
                    |k2: int| yaml_model_seq(sv[k2], self.models@[find_id(self.models@, sv[k2])->0]),
                ),
                sv.len() == n,
                Seq::new(order@.len(), |k2: int| order@[k2].unique_id@) == sv,
                forall|k2: int| #![trigger order@[k2]]
                    0 <= k2 < n ==> (find_id(self.models@, order@[k2].unique_id@) is Some && *(
                    order@[k2]) == self.models@[find_id(self.models@, order@[k2].unique_id@)->0]),
                0 <= k <= n,
                items@.len() == k,
                forall|j: int| 0 <= j < k ==> items.deep_view()[j] == espec[j],
            decreases n - k,
        {
            let m: &SqlModel = order[k];
            proof {
                assert(order@[k as int].unique_id@ == sv[k as int]);
            }
            let piece = render_yaml_model(m.unique_id.as_str(), m);
            proof {
                assert(piece@ =~= espec[k as int]);
            }
            items.push(piece);
            k = k + 1;
        }
        proof {
            assert(items.deep_view() =~= espec);
        }
        let joined = strutil::join_strings(&items, "");
        let mut out = String::from_str("version: 1\nmodels:\n");
        out = out.concat(joined.as_str());
        proof {
            assert(out@ =~= yaml_render(self.models@));
        }
        out
    }
}

// ----------------------------------------------------------------------
// DOT text.
// ----------------------------------------------------------------------

/// One DOT node: the model's id, labelled with name and depth.
pub open spec fn dot_node_line(id: Seq<char>, m: SqlModel) -> Seq<char> {
    "  \""@ + id + "\" [label=\""@ + m.name@ + " (depth: "@ + (match m.depth {
        Option::Some(d) => strutil::dec_str(d as int),
        Option::None => "?"@,
    }) + ")\"];\n"@
}

/// All DOT nodes, in unique-id order.
pub open spec fn dot_nodes(ms: Seq<SqlModel>) -> Seq<char> {
    let sorted = strutil::sort_names(model_ids(ms));
    strutil::join_with(
        Seq::new(
            sorted.len(),
            |k: int| dot_node_line(sorted[k], ms[find_id(ms, sorted[k])->0]),
        ),
        ""@,
    )
}

/// All DOT edges, in the order the graph build recorded them.
pub open spec fn dot_edges(ms: Seq<SqlModel>, edges: Seq<(usize, usize)>) -> Seq<char> {
    strutil::join_with(
        Seq::new(
            edges.len(),
            |k: int| "  \""@ + ms[edges[k].0 as int].unique_id@ + "\" -> \""@
                + ms[edges[k].1 as int].unique_id@ + "\";\n"@,
        ),
        ""@,
    )
}

/// The largest assigned depth, or zero.
pub open spec fn max_depth_or0(ms: Seq<SqlModel>) -> int
    decreases ms,
{
    if ms.len() == 0 {
        0
    } else {
        let rest = max_depth_or0(ms.drop_last());
        let last = match ms.last().depth {
            Option::Some(d) => d as int,
            Option::None => 0,
        };
        if last > rest {
            last
        } else {
            rest
        }
    }
}

/// One depth level's `rank=same` block.
pub open spec fn dot_level_block(ms: Seq<SqlModel>, d: int) -> Seq<char> {
    let sorted = strutil::sort_names(model_ids(ms));
    "  subgraph depth_"@ + strutil::dec_str(d) + " {\n    rank=same;\n"@ + strutil::join_with(
        Seq::new(
            sorted.len(),
            |k: int| if ms[find_id(ms, sorted[k])->0].depth == Option::Some(d as usize) {
                "    \""@ + sorted[k] + "\";\n"@
            } else {
                Seq::empty()
            },
        ),
        ""@,
    ) + "  }\n"@
}

/// The level blocks for every depth below `dend`.
pub open spec fn dot_levels_upto(ms: Seq<SqlModel>, dend: int) -> Seq<char>
    decreases dend,
{
    if dend <= 0 {
        Seq::empty()
    } else {
        dot_levels_upto(ms, dend - 1) + dot_level_block(ms, dend - 1)
    }
}

/// The whole DOT document.
pub open spec fn dot_render(ms: Seq<SqlModel>, edges: Seq<(usize, usize)>) -> Seq<char> {
    "digraph models {\n  rankdir=LR;\n  node [shape=box];\n"@ + dot_nodes(ms) + dot_edges(
        ms,
        edges,
    ) + dot_levels_upto(ms, max_depth_or0(ms) + 1) + "}\n"@
}

impl SqlModelCollection {
    /// Renders one depth level's block.
    fn render_dot_level(&self, order: &Vec<&SqlModel>, d: usize) -> (r: String)
        requires
            self.wf(),
            order@.len() == self.models@.len(),
            Seq::new(order@.len(), |k: int| order@[k].unique_id@) == strutil::sort_names(
                model_ids(self.models@),
            ),
            forall|k2: int| #![trigger order@[k2]]
                0 <= k2 < order@.len() ==> (find_id(self.models@, order@[k2].unique_id@) is Some
                    && *(order@[k2]) == self.models@[find_id(
                    self.models@,
                    order@[k2].unique_id@,
                )->0]),
        ensures
            r@ == dot_level_block(self.models@, d as int),
    {
        let ghost sv = strutil::sort_names(model_ids(self.models@));
        let ghost espec = Seq::new(
            sv.len(),
            |k: int| if self.models@[find_id(self.models@, sv[k])->0].depth == Option::Some(
                (d as int) as usize,
            ) {
                "    \""@ + sv[k] + "\";\n"@
            } else {
                Seq::empty()
            },
        );
        let mut out = String::from_str("  subgraph depth_");
        let piece = strutil::usize_to_string(d);
        out = out.concat(piece.as_str());
        out = out.concat(" {\n    rank=same;\n");
        let n: usize = order.len();
        let mut items: Vec<String> = Vec::new();
        let mut k: usize = 0;
        while k < n
            invariant
                self.wf(),
                n == order@.len(),
                sv == strutil::sort_names(model_ids(self.models@)),
                espec == Seq::new(
                    sv.len(),
                    |k2: int| if self.models@[find_id(self.models@, sv[k2])->0].depth
                        == Option::Some((d as int) as usize) {
                        "    \""@ + sv[k2] + "\";\n"@
                    } else {
                        Seq::empty()
                    },
                ),
                sv.len() == n,
                Seq::new(order@.len(), |k2: int| order@[k2].unique_id@) == sv,
                forall|k2: int| #![trigger order@[k2]]
                    0 <= k2 < n ==> (find_id(self.models@, order@[k2].unique_id@) is Some && *(
                    order@[k2]) == self.models@[find_id(self.models@, order@[k2].unique_id@)->0]),
                0 <= k <= n,
                items@.len() == k,
                forall|j: int| 0 <= j < k ==> items.deep_view()[j] == espec[j],
            decreases n - k,
        {
            let m: &SqlModel = order[k];
            proof {
                assert(order@[k as int].unique_id@ == sv[k as int]);
            }
            let matches_level = match m.depth {
                Option::Some(md) => md == d,
                Option::None => false,
            };
            if matches_level {
                proof {
                    assert(self.models@[find_id(self.models@, sv[k as int])->0].depth
                        == Option::Some(d));
                }
                let mut piece = String::from_str("    \"");
                piece = piece.concat(m.unique_id.as_str());
                piece = piece.concat("\";\n");
                proof {
                    assert(piece@ =~= espec[k as int]);
                }
                items.push(piece);
            } else {
                proof {
                    assert(self.models@[find_id(self.models@, sv[k as int])->0].depth
                        != Option::Some(d));
                }
                let piece = String::new();
                proof {
                    assert(piece@ =~= espec[k as int]);
                }
                items.push(piece);
            }
            k = k + 1;
        }
        proof {
            assert(items.deep_view() =~= espec);
        }
        let joined = strutil::join_strings(&items, "");
        out = out.concat(joined.as_str());
        out = out.concat("  }\n");
        proof {
            assert(out@ =~= dot_level_block(self.models@, d as int));
        }
        out
    }

    /// The collection as a DOT graph: one node per model with its depth, one
    /// directed edge per parent-to-child pair, and a `rank=same` block per
    /// depth level.
    pub fn to_dot_graph(&self) -> (r: String)
        requires
            self.wf(),
        ensures
            r@ == dot_render(self.models@, self.edges@),
    {
        let order = self.get_execution_order();
        let ghost sv = strutil::sort_names(model_ids(self.models@));
        let n: usize = order.len();
        let mut out = String::from_str("digraph models {\n  rankdir=LR;\n  node [shape=box];\n");
        // nodes
        let ghost nspec = Seq::new(
            sv.len(),
            |k: int| dot_node_line(sv[k], self.models@[find_id(self.models@, sv[k])->0]),
        );
        let mut items: Vec<String> = Vec::new();
        let mut k: usize = 0;
        while k < n
            invariant
                self.wf(),
                n == order@.len(),
                sv == strutil::sort_names(model_ids(self.models@)),
                nspec == Seq::new(
                    sv.len(),
                    |k2: int| dot_node_line(
                        sv[k2],
                        self.models@[find_id(self.models@, sv[k2])->0],
                    ),
                ),
                sv.len() == n,
                Seq::new(order@.len(), |k2: int| order@[k2].unique_id@) == sv,
                forall|k2: int| #![trigger order@[k2]]
                    0 <= k2 < n ==> (find_id(self.models@, order@[k2].unique_id@) is Some && *(
                    order@[k2]) == self.models@[find_id(self.models@, order@[k2].unique_id@)->0]),
                0 <= k <= n,
                items@.len() == k,
                forall|j: int| 0 <= j < k ==> items.deep_view()[j] == nspec[j],
            decreases n - k,
        {
            let m: &SqlModel = order[k];
            proof {
                assert(order@[k as int].unique_id@ == sv[k as int]);
            }
            let mut piece = String::from_str("  \"");
            piece = piece.concat(m.unique_id.as_str());
            piece = piece.concat("\" [label=\"");
            piece = piece.concat(m.name.as_str());
            piece = piece.concat(" (depth: ");
            let dp = match m.depth {
                Option::Some(dv) => strutil::usize_to_string(dv),
                Option::None => String::from_str("?"),
            };
            piece = piece.concat(dp.as_str());
            piece = piece.concat(")\"];\n");
            proof {
                assert(piece@ =~= nspec[k as int]);
            }
            items.push(piece);
            k = k + 1;
        }
        proof {
            assert(items.deep_view() =~= nspec);
        }
        let joined = strutil::join_strings(&items, "");
        out = out.concat(joined.as_str());
        // edges
        let ghost espec = Seq::new(
            self.edges@.len(),
            |k: int| "  \""@ + self.models@[self.edges@[k].0 as int].unique_id@ + "\" -> \""@
                + self.models@[self.edges@[k].1 as int].unique_id@ + "\";\n"@,
        );
        let ne: usize = self.edges.len();
        let mut eitems: Vec<String> = Vec::new();
        let mut e: usize = 0;
        while e < ne
            invariant
                self.wf(),
                ne == self.edges@.len(),
                espec == Seq::new(
                    self.edges@.len(),
                    |k2: int| "  \""@ + self.models@[self.edges@[k2].0 as int].unique_id@
                        + "\" -> \""@ + self.models@[self.edges@[k2].1 as int].unique_id@
                        + "\";\n"@,
                ),
                0 <= e <= ne,
                eitems@.len() == e,
                forall|j: int| 0 <= j < e ==> eitems.deep_view()[j] == espec[j],
            decreases ne - e,
        {
            let (ep, ec) = (self.edges[e].0, self.edges[e].1);
            let mut piece = String::from_str("  \"");
            piece = piece.concat(self.models[ep].unique_id.as_str());
            piece = piece.concat("\" -> \"");
            piece = piece.concat(self.models[ec].unique_id.as_str());
            piece = piece.concat("\";\n");
            proof {
                assert(piece@ =~= espec[e as int]);
            }
            eitems.push(piece);
            e = e + 1;
        }
        proof {
            assert(eitems.deep_view() =~= espec);
        }
        let joined = strutil::join_strings(&eitems, "");
        out = out.concat(joined.as_str());
        // one block per depth level
        let mut maxd: usize = 0;
        let mut i: usize = 0;
        while i < n
            invariant
                self.wf(),
                n == self.models@.len(),
                0 <= i <= n,
                maxd as int == max_depth_or0(self.models@.take(i as int)),
            decreases n - i,
        {
            match self.models[i].depth {
                Option::Some(dv) => {
                    if dv > maxd {
                        maxd = dv;
                    }
                },
                Option::None => {
                },
            }
            proof {
                assert(self.models@.take(i + 1).drop_last() =~= self.models@.take(i as int));
                assert(self.models@.take(i + 1).last() == self.models@[i as int]);
            }
            i = i + 1;
        }
        proof {
            assert(self.models@.take(n as int) =~= self.models@);
        }
        let mut d: usize = 0;
        let mut blocks = String::new();
        proof {
            assert(blocks@ =~= dot_levels_upto(self.models@, 0));
        }
        while d < maxd
            invariant
                self.wf(),
                n == order@.len(),
                n == self.models@.len(),
                sv == strutil::sort_names(model_ids(self.models@)),
                Seq::new(order@.len(), |k2: int| order@[k2].unique_id@) == sv,
                forall|k2: int| #![trigger order@[k2]]
                    0 <= k2 < n ==> (find_id(self.models@, order@[k2].unique_id@) is Some && *(
                    order@[k2]) == self.models@[find_id(self.models@, order@[k2].unique_id@)->0]),
                0 <= d <= maxd,
                blocks@ == dot_levels_upto(self.models@, d as int),
            decreases maxd - d,
        {
            let piece = self.render_dot_level(&order, d);
            blocks = blocks.concat(piece.as_str());
            proof {
                assert(blocks@ =~= dot_levels_upto(self.models@, d + 1));
            }
            d = d + 1;
        }
        let piece = self.render_dot_level(&order, maxd);
        blocks = blocks.concat(piece.as_str());
        proof {
            assert(blocks@ =~= dot_levels_upto(self.models@, maxd + 1));
            assert(maxd as int == max_depth_or0(self.models@));
        }
        out = out.concat(blocks.as_str());
        out = out.concat("}\n");
        proof {
            assert(out@ =~= dot_render(self.models@, self.edges@));
        }
        out
    }
}

// ----------------------------------------------------------------------
// Plain text.
// ----------------------------------------------------------------------

/// An optional indented line: nothing where the value is absent.
pub open spec fn text_opt_line(prefix: Seq<char>, o: Option<Seq<char>>) -> Seq<char> {
    match o {
        Option::Some(s) => prefix + s + "\n"@,
        Option::None => Seq::empty(),
    }
}

/// A headed section listing items one per line; nothing when empty.
pub open spec fn text_list_section(header: Seq<char>, items: Seq<Seq<char>>) -> Seq<char> {
    if items.len() == 0 {
        Seq::empty()
    } else {
        header + strutil::join_with(
            Seq::new(items.len(), |i: int| "    - "@ + items[i] + "\n"@),
            ""@,
        )
    }
}

/// The location line: shown only when a schema is declared, with database
/// and object name falling back to `default` and the model's name.
pub open spec fn text_location(m: SqlModel) -> Seq<char> {
    match m.schema {
        Option::Some(s) => "  Location: "@ + (match m.database {
            Option::Some(db) => db@,
            Option::None => "default"@,
        }) + "."@ + s@ + "."@ + (match m.object_name {
            Option::Some(o) => o@,
            Option::None => m.name@,
        }) + "\n"@,
        Option::None => Seq::empty(),
    }
}

/// One column's text line.
pub open spec fn text_col_line(c: ColumnInfo) -> Seq<char> {
    "    - "@ + c.name@ + " ["@ + (match c.data_type {
        Option::Some(d) => d@,
        Option::None => "unknown"@,
    }) + "]"@ + (match c.description {
        Option::Some(ds) => ": "@ + ds@,
        Option::None => Seq::empty(),
    }) + "\n"@
}

/// The columns section, in name order; nothing when empty.
pub open spec fn text_cols(cols: Seq<ColumnInfo>) -> Seq<char> {
    let sorted = strutil::sort_names(col_names(cols));
    if sorted.len() == 0 {
        Seq::empty()
    } else {
        "  Columns:\n"@ + strutil::join_with(
            Seq::new(sorted.len(), |k: int| text_col_line(cols[find_col_index(cols, sorted[k])])),
            ""@,
        )
    }
}

/// The heading lines of one model's text block: name, depth, description,
/// materialization, location and tags.
pub open spec fn text_head_seq(m: SqlModel) -> Seq<char> {
    "\nModel: "@ + m.name@ + " [Depth: "@ + (match m.depth {
        Option::Some(d) => strutil::dec_str(d as int),
        Option::None => "unknown"@,
    }) + "]\n"@ + text_opt_line("  Description: "@, m.description.deep_view()) + text_opt_line(
        "  Materialized: "@,
        m.materialized.deep_view(),
    ) + text_location(m) + (if m.tags@.len() == 0 {
        Seq::<char>::empty()
    } else {
        "  Tags: "@ + strutil::join_with(strutil::sort_names(m.tags.deep_view()), ", "@) + "\n"@
    })
}

/// One model's text block.
pub open spec fn text_model_seq(m: SqlModel) -> Seq<char> {
    text_head_seq(m) + text_cols(m.columns@) + text_list_section(
        "  External sources:\n"@,
        strutil::sort_names(m.external_sources.deep_view()),
    ) + text_list_section(
        "  Depends on models:\n"@,
        strutil::sort_names(m.upstream_models.deep_view()),
    ) + text_list_section(
        "  Used by models:\n"@,
        strutil::sort_names(m.downstream_models.deep_view()),
    )
}

/// The whole text report, models in unique-id order.
pub open spec fn text_render(ms: Seq<SqlModel>) -> Seq<char> {
    let sorted = strutil::sort_names(model_ids(ms));
    strutil::join_with(
        Seq::new(sorted.len(), |k: int| text_model_seq(ms[find_id(ms, sorted[k])->0])),
        ""@,
    )
}

/// Renders an optional indented line.
fn render_text_opt_line(prefix: &str, o: &Option<String>) -> (r: String)
    ensures
        r@ == text_opt_line(prefix@, o.deep_view()),
{
    match o {
        Option::Some(s) => {
            let mut out = prefix.to_owned();
            out = out.concat(s.as_str());
            out = out.concat("\n");
            proof {
                assert(out@ =~= text_opt_line(prefix@, o.deep_view()));
            }
            out
        },
        Option::None => String::new(),
    }
}

/// Renders a headed section from a vector sorted ascending.
fn render_text_list_section(header: &str, v: &Vec<String>) -> (r: String)
    ensures
        r@ == text_list_section(header@, strutil::sort_names(v.deep_view())),
{
    let sorted = strutil::sorted_strings(v);
    let ghost sv = strutil::sort_names(v.deep_view());
    let ghost espec = Seq::new(sv.len(), |i: int| "    - "@ + sv[i] + "\n"@);
    let n: usize = sorted.len();
    if n == 0 {
        let out = String::new();
        proof {
            assert(out@ =~= text_list_section(header@, sv));
        }
        return out;
    }
    let mut items: Vec<String> = Vec::new();
    let mut k: usize = 0;
    while k < n
        invariant
            sorted.deep_view() == sv,
            espec == Seq::new(sv.len(), |i: int| "    - "@ + sv[i] + "\n"@),
            n == sv.len(),
            n == sorted@.len(),
            0 <= k <= n,
            items@.len() == k,
            forall|j: int| 0 <= j < k ==> items.deep_view()[j] == espec[j],
        decreases n - k,
    {
        let mut piece = String::from_str("    - ");
        piece = piece.concat(sorted[k].as_str());
        piece = piece.concat("\n");
        proof {
            assert(piece@ =~= espec[k as int]);
        }
        items.push(piece);
        k = k + 1;
    }
    proof {
        assert(items.deep_view() =~= espec);
    }
    let joined = strutil::join_strings(&items, "");
    let mut out = header.to_owned();
    out = out.concat(joined.as_str());
    proof {
        assert(out@ =~= text_list_section(header@, sv));
    }
    out
}

/// Renders the columns section of one model's text block.
fn render_text_cols(cols: &Vec<ColumnInfo>) -> (r: String)
    ensures
        r@ == text_cols(cols@),
{
    let ocols = sorted_output_columns(cols);
    let ghost sorted = strutil::sort_names(col_names(cols@));
    let ghost espec = Seq::new(
        sorted.len(),
        |k: int| text_col_line(cols@[find_col_index(cols@, sorted[k])]),
    );
    let n: usize = ocols.len();
    if n == 0 {
        let out = String::new();
        proof {
            assert(out@ =~= text_cols(cols@));
        }
        return out;
    }
    let mut items: Vec<String> = Vec::new();
    let mut k: usize = 0;
    while k < n
        invariant
            out_cols_match(cols@, ocols@),
            sorted == strutil::sort_names(col_names(cols@)),
            espec == Seq::new(
                sorted.len(),
                |k2: int| text_col_line(cols@[find_col_index(cols@, sorted[k2])]),
            ),
            n == ocols@.len(),
            n == sorted.len(),
            0 <= k <= n,
            items@.len() == k,
            forall|j: int| 0 <= j < k ==> items.deep_view()[j] == espec[j],
        decreases n - k,
    {
        let oc = &ocols[k];
        let mut piece = String::from_str("    - ");
        piece = piece.concat(oc.name.as_str());
        piece = piece.concat(" [");
        match &oc.data_type {
            Option::Some(d) => {
                piece = piece.concat(d.as_str());
            },
            Option::None => {
                piece = piece.concat("unknown");
            },
        }
        piece = piece.concat("]");
        match &oc.description {
            Option::Some(ds) => {
                piece = piece.concat(": ");
                piece = piece.concat(ds.as_str());
            },
            Option::None => {
            },
        }
        piece = piece.concat("\n");
        proof {
            let ci = find_col_index(cols@, ocols@[k as int].name@);
            assert(out_col_matches(cols@[ci], ocols@[k as int]));
            assert(ocols@[k as int].name@ == sorted[k as int]);
            assert(piece@ =~= text_col_line(cols@[find_col_index(cols@, sorted[k as int])]));
        }
        items.push(piece);
        k = k + 1;
    }
    proof {
        assert(items.deep_view() =~= espec);
    }
    let joined = strutil::join_strings(&items, "");
    let mut out = String::from_str("  Columns:\n");
    out = out.concat(joined.as_str());
    proof {
        assert(out@ =~= text_cols(cols@));
    }
    out
}

/// Renders the heading lines of one model's text block.
fn render_text_head(m: &SqlModel) -> (r: String)
    ensures
        r@ == text_head_seq(*m),
{
    let mut out = String::from_str("\nModel: ");
    out = out.concat(m.name.as_str());
    out = out.concat(" [Depth: ");
    let dp = match m.depth {
        Option::Some(dv) => strutil::usize_to_string(dv),
        Option::None => String::from_str("unknown"),
    };
    out = out.concat(dp.as_str());
    out = out.concat("]\n");
    let ghost part1 = "\nModel: "@ + m.name@ + " [Depth: "@ + (match m.depth {
        Option::Some(d) => strutil::dec_str(d as int),
        Option::None => "unknown"@,
    }) + "]\n"@;
    proof {
        assert(out@ =~= part1);
    }
    let piece = render_text_opt_line("  Description: ", &m.description);
    out = out.concat(piece.as_str());
    let piece = render_text_opt_line("  Materialized: ", &m.materialized);
    out = out.concat(piece.as_str());
    let ghost part2 = part1 + text_opt_line("  Description: "@, m.description.deep_view())
        + text_opt_line("  Materialized: "@, m.materialized.deep_view());
    proof {
        assert(out@ =~= part2);
    }
    match &m.schema {
        Option::Some(s) => {
            out = out.concat("  Location: ");
            match &m.database {
                Option::Some(db) => {
                    out = out.concat(db.as_str());
                },
                Option::None => {
                    out = out.concat("default");
                },
            }
            out = out.concat(".");
            out = out.concat(s.as_str());
            out = out.concat(".");
            match &m.object_name {
                Option::Some(o) => {
                    out = out.concat(o.as_str());
                },
                Option::None => {
                    out = out.concat(m.name.as_str());
                },
            }
            out = out.concat("\n");
        },
        Option::None => {
        },
    }
    let ghost part3 = part2 + text_location(*m);
    proof {
        assert(out@ =~= part3);
    }
    if m.tags.len() > 0 {
        out = out.concat("  Tags: ");
        let sorted_tags = strutil::sorted_strings(&m.tags);
        proof {
            strutil::lemma_sort_names_properties(m.tags.deep_view());
        }
        let piece = strutil::join_strings(&sorted_tags, ", ");
        out = out.concat(piece.as_str());
        out = out.concat("\n");
    }
    proof {
        strutil::lemma_sort_names_properties(m.tags.deep_view());
        assert(out@ =~= text_head_seq(*m));
    }
    out
}

/// Renders one model's text block.
pub fn render_text_model(m: &SqlModel) -> (r: String)
    ensures
        r@ == text_model_seq(*m),
{
    let mut out = render_text_head(m);
    let piece = render_text_cols(&m.columns);
    out = out.concat(piece.as_str());
    let piece = render_text_list_section("  External sources:\n", &m.external_sources);
    out = out.concat(piece.as_str());
    let piece = render_text_list_section("  Depends on models:\n", &m.upstream_models);
    out = out.concat(piece.as_str());
    let piece = render_text_list_section("  Used by models:\n", &m.downstream_models);
    out = out.concat(piece.as_str());
    proof {
        assert(out@ =~= text_model_seq(*m));
    }
    out
}

impl SqlModelCollection {
    /// The whole collection as a plain text report, models in unique-id
    /// order.
    pub fn to_text(&self) -> (r: String)
        requires
            self.wf(),
        ensures
            r@ == text_render(self.models@),
    {
        let order = self.get_execution_order();
        let ghost sv = strutil::sort_names(model_ids(self.models@));
        let ghost espec = Seq::new(
            sv.len(),
            |k: int| text_model_seq(self.models@[find_id(self.models@, sv[k])->0]),
        );
        let n: usize = order.len();
        let mut items: Vec<String> = Vec::new();
        let mut k: usize = 0;
        while k < n
            invariant
                self.wf(),
                n == order@.len(),
                sv == strutil::sort_names(model_ids(self.models@)),
                espec == Seq::new(
                    sv.len(),
                    |k2: int| text_model_seq(self.models@[find_id(self.models@, sv[k2])->0]),
                ),
                sv.len() == n,
                Seq::new(order@.len(), |k2: int| order@[k2].unique_id@) == sv,
                forall|k2: int| #![trigger order@[k2]]
                    0 <= k2 < n ==> (find_id(self.models@, order@[k2].unique_id@) is Some && *(
                    order@[k2]) == self.models@[find_id(self.models@, order@[k2].unique_id@)->0]),
                0 <= k <= n,
                items@.len() == k,
                forall|j: int| 0 <= j < k ==> items.deep_view()[j] == espec[j],
            decreases n - k,
        {
            let m: &SqlModel = order[k];
            proof {
                assert(order@[k as int].unique_id@ == sv[k as int]);
            }
            let piece = render_text_model(m);
            proof {
                assert(piece@ =~= espec[k as int]);
            }
            items.push(piece);
            k = k + 1;
        }
        proof {
            assert(items.deep_view() =~= espec);
        }
        let joined = strutil::join_strings(&items, "");
        proof {
            assert(joined@ =~= text_render(self.models@));
        }
        joined
    }

    /// The JSON document as records: the models in unique-id order.
    pub fn to_json(&self) -> (r: JsonOutput)
        requires
            self.wf(),
        ensures
            r.models@.len() == self.models@.len(),
            Seq::new(r.models@.len(), |k: int| r.models@[k].0@) == strutil::sort_names(
                model_ids(self.models@),
            ),
            forall|k: int|
                0 <= k < r.models@.len() ==> (find_id(
                    self.models@,
                    (#[trigger] r.models@[k]).0@,
                ) is Some && json_model_matches(
                    self.models@[find_id(self.models@, r.models@[k].0@)->0],
                    r.models@[k].1,
                )),
    {
        let yaml = self.to_yaml();
        let ghost sv = strutil::sort_names(model_ids(self.models@));
        let n: usize = yaml.models.len();
        let mut rest = yaml.models;
        let mut out: Vec<(String, JsonModel)> = Vec::new();
        let ghost orig = rest@;
        let ghost i: int = 0;
        while rest.len() > 0
            invariant
                self.wf(),
                0 <= i <= orig.len(),
                orig.len() == sv.len(),
                sv == strutil::sort_names(model_ids(self.models@)),
                rest@ =~= orig.skip(i),
                forall|k: int| 0 <= k < orig.len() ==> (#[trigger] orig[k]).0@ == sv[k],
                forall|k: int|
                    0 <= k < orig.len() ==> (find_id(self.models@, (#[trigger] orig[k]).0@) is Some
                        && out_model_matches(
                        self.models@[find_id(self.models@, orig[k].0@)->0],
                        orig[k].1,
                    )),
                out@.len() == i,
                forall|k: int| 0 <= k < i ==> (#[trigger] out@[k]).0@ == sv[k],
                forall|k: int|
                    0 <= k < i ==> (find_id(self.models@, (#[trigger] out@[k]).0@) is Some
                        && json_model_matches(
                        self.models@[find_id(self.models@, out@[k].0@)->0],
                        out@[k].1,
                    )),
            decreases rest@.len(),
        {
            let ghost src_model = self.models@[find_id(self.models@, orig[i].0@)->0];
            let (id, ym) = rest.remove(0);
            proof {
                assert(orig[i].0@ == sv[i]);
                assert(rest@ =~= orig.skip(i + 1));
                assert((id, ym) == orig[i]);
                assert(out_model_matches(src_model, ym));
            }
            let YamlOutputModel {
                name,
                path,
                description,
                materialized,
                database,
                schema,
                object_name,
                tags,
                columns,
                depends_on,
                referenced_by,
                external_sources,
                depth,
            } = ym;
            let mut jcols: Vec<JsonColumn> = Vec::new();
            let mut crest = columns;
            let ghost corig = crest@;
            let ghost ci: int = 0;
            while crest.len() > 0
                invariant
                    0 <= ci <= corig.len(),
                    crest@ =~= corig.skip(ci),
                    jcols@.len() == ci,
                    forall|k: int|
                        0 <= k < ci ==> (#[trigger] jcols@[k]).name@ == corig[k].name@
                            && jcols@[k].description.deep_view() == corig[k].description.deep_view()
                            && jcols@[k].data_type.deep_view() == corig[k].data_type.deep_view(),
                decreases crest@.len(),
            {
                let YamlOutputColumn { name: cn, description: cd, data_type: ct } = crest.remove(
                    0,
                );
                proof {
                    assert(crest@ =~= corig.skip(ci + 1));
                }
                jcols.push(JsonColumn { name: cn, description: cd, data_type: ct });
                proof {
                    ci = ci + 1;
                }
            }
            let jm = JsonModel {
                name,
                path,
                description,
                materialized,
                database,
                schema,
                object_name,
                tags,
                columns: jcols,
                depends_on,
                referenced_by,
                external_sources,
                depth,
            };
            proof {
                assert(json_model_matches(src_model, jm)) by {
                    assert(json_cols_match(src_model.columns@, jm.columns@)) by {
                        assert(out_cols_match(src_model.columns@, orig[i].1.columns@));
                        assert(jm.columns@.len() == orig[i].1.columns@.len());
                        assert forall|k: int|
                            0 <= k < jm.columns@.len() implies (#[trigger] jm.columns@[k]).name@
                            == strutil::sort_names(col_names(src_model.columns@))[k]
                            && find_col_index(src_model.columns@, jm.columns@[k].name@) >= 0
                            && json_col_matches(
                            src_model.columns@[find_col_index(
                                src_model.columns@,
                                jm.columns@[k].name@,
                            )],
                            jm.columns@[k],
                        ) by {
                            assert(orig[i].1.columns@[k].name@ == strutil::sort_names(
                                col_names(src_model.columns@),
                            )[k]);
                            assert(out_col_matches(
                                src_model.columns@[find_col_index(
                                    src_model.columns@,
                                    orig[i].1.columns@[k].name@,
                                )],
                                orig[i].1.columns@[k],
                            ));
                        }
                    }
                }
            }
            out.push((id, jm));
            proof {
                i = i + 1;
            }
        }
        proof {
            assert(Seq::new(out@.len(), |k: int| out@[k].0@) =~= sv);
        }
        JsonOutput { models: out }
    }
}

/// Determinism of the emitters: two collections holding the same records
/// and the same edges render byte-identical text, DOT, JSON and YAML
/// documents.
pub proof fn lemma_outputs_deterministic(a: SqlModelCollection, b: SqlModelCollection)
    requires
        a.models@ == b.models@,
        a.edges@ == b.edges@,
    ensures
        json_render(a.models@) == json_render(b.models@),
        yaml_render(a.models@) == yaml_render(b.models@),
        dot_render(a.models@, a.edges@) == dot_render(b.models@, b.edges@),
        text_render(a.models@) == text_render(b.models@),
{
}

} // verus!
