//! One SQL model: identity, content, metadata and its graph position.
//!
//! A record is built from a path, the project root, the raw SQL text and the
//! already-parsed statement list.  Reading files, parsing SQL and parsing the
//! YAML sidecar are the embedder's business; the record consumes their plain
//! results and is verified end to end.

use vstd::prelude::*;
use vstd::string::StrSliceExecFns;
use vstd::string::StringExecFns;

use crate::ast::Statement;
use crate::extract;
use crate::strutil;

verus! {

/// The hex SHA-256 digest of a text, named: it depends on the text alone.
pub uninterp spec fn sha256_hex_of(s: Seq<char>) -> Seq<char>;

/// Relies on sha2's `Sha256` (a 32-byte digest that is a function of the
/// input alone) rendered as lowercase hex, two digits per byte.
#[verifier::external_body]
pub(crate) fn sha256_hex(content: &str) -> (r: String)
    ensures
        r@ == sha256_hex_of(content@),
        r@.len() == 64,
{
    let digest = <sha2::Sha256 as sha2::Digest>::digest(content.as_bytes());
    let mut out = String::new();
    for b in digest.iter() {
        out.push_str(&format!("{:02x}", b));
    }
    out
}

/// Relies on chrono's `Utc::now`; nothing is promised of the clock's value.
#[verifier::external_body]
pub(crate) fn now_timestamp_micros() -> i64 {
    chrono::Utc::now().timestamp_micros()
}

/// One value under a free-form meta key.  Strings and arrays of strings are
/// held as such; anything else is carried opaquely.
pub enum MetaValue {
    Str(String),
    StrList(Vec<String>),
    Other,
}

/// One entry of a free-form meta mapping.
pub struct MetaEntry {
    pub key: String,
    pub value: MetaValue,
}

/// Where one column of a model comes from.
pub struct ColumnLineageInfo {
    pub table: String,
    pub column: String,
    pub transformation_type: String,
}

/// Information about a column in a model.
pub struct ColumnInfo {
    pub name: String,
    pub description: Option<String>,
    pub data_type: Option<String>,
    pub tests: Vec<String>,
    pub meta: Vec<MetaEntry>,
    pub source_columns: Vec<ColumnLineageInfo>,
}

/// A column entry of the YAML sidecar.
pub struct YamlColumnData {
    pub name: String,
    pub description: Option<String>,
    pub data_type: Option<String>,
    pub tests: Option<Vec<String>>,
    pub meta: Option<Vec<MetaEntry>>,
}

/// The `config:` block of a model entry of the YAML sidecar.
pub struct YamlModelConfigData {
    pub materialized: Option<String>,
}

/// One `models:` entry of the YAML sidecar.
pub struct YamlModelData {
    pub name: String,
    pub description: Option<String>,
    pub meta: Option<Vec<MetaEntry>>,
    pub config: Option<YamlModelConfigData>,
    pub database_name: Option<String>,
    pub schema_name: Option<String>,
    pub object_name: Option<String>,
    pub columns: Option<Vec<YamlColumnData>>,
}

/// One `sources:` entry of an imports catalog: a qualifier and the table
/// names declared under it.
pub struct YamlSourceData {
    pub name: String,
    pub database: String,
    pub tables: Vec<String>,
}

/// A parsed YAML sidecar or imports catalog.
pub struct YamlConfigData {
    pub version: i32,
    pub models: Vec<YamlModelData>,
    pub sources: Vec<YamlSourceData>,
}

// ----------------------------------------------------------------------
// Identity derived from the file path.
// ----------------------------------------------------------------------

/// The unique id of the model at a path: the path relative to the root with
/// separators as dots and the `.sql` suffix removed, prefixed `model.`.
pub open spec fn unique_id_seq(path: Seq<char>, root: Seq<char>) -> Seq<char> {
    "model."@ + strutil::seps_to_dots(
        strutil::strip_suffix_seq(strutil::relative_to_seq(path, root), ".sql"@),
    )
}

/// The file stem: the file name up to its last dot, where one separates a
/// nonempty stem from an extension.
pub open spec fn file_stem_seq(name: Seq<char>) -> Seq<char> {
    if strutil::last_index_of(name, '.') > 0 {
        name.subrange(0, strutil::last_index_of(name, '.'))
    } else {
        name
    }
}

/// Identity of a model file, derived from its path alone.
pub struct ModelMetadata {
    pub unique_id: String,
    pub name: String,
    pub fully_qualified_path: String,
    pub relative_path: String,
    pub file_name: String,
    pub parent_dir: String,
}

/// Returns the file stem of a bare file name.
fn file_stem_of(name: &str) -> (r: String)
    ensures
        r@ == file_stem_seq(name@),
{
    proof {
        strutil::lemma_last_index_of(name@, '.');
    }
    let n: usize = name.unicode_len();
    let mut i: usize = n;
    while i > 0
        invariant
            n == name@.len(),
            0 <= i <= n,
            forall|j: int| i <= j < n ==> name@[j] != '.',
        decreases i,
    {
        if name.get_char(i - 1) == '.' {
            assert(strutil::last_index_of(name@, '.') == i - 1) by {
                strutil::lemma_last_index_of(name@, '.');
                if strutil::last_index_of(name@, '.') > i - 1 {
                    assert(name@[strutil::last_index_of(name@, '.')] == '.');
                }
            }
            if i - 1 > 0 {
                let piece = name.substring_char(0, i - 1);
                assert(piece@ =~= file_stem_seq(name@));
                return piece.to_owned();
            }
            return name.to_owned();
        }
        i = i - 1;
    }
    assert(strutil::last_index_of(name@, '.') <= 0) by {
        strutil::lemma_last_index_of(name@, '.');
        if strutil::last_index_of(name@, '.') > 0 {
            assert(name@[strutil::last_index_of(name@, '.')] == '.');
        }
    }
    name.to_owned()
}

/// Derives a model's identity from its path and the project root.
pub fn extract_file_metadata(path: &str, project_root: &str) -> (r: ModelMetadata)
    ensures
        r.unique_id@ == unique_id_seq(path@, project_root@),
        r.name@ == file_stem_seq(strutil::base_name_seq(path@)),
        r.fully_qualified_path@ == path@,
        r.relative_path@ == strutil::relative_to_seq(path@, project_root@),
        r.file_name@ == strutil::base_name_seq(path@),
        r.parent_dir@ == strutil::parent_dir_seq(path@),
{
    let file_name = strutil::base_name(path);
    let name = file_stem_of(file_name.as_str());
    let relative = strutil::relative_to(path, project_root);
    let stripped = strutil::strip_suffix(relative.as_str(), ".sql");
    let dotted = strutil::replace_seps_with_dots(stripped.as_str());
    let unique_id = String::from_str("model.").concat(dotted.as_str());
    let parent_dir = strutil::parent_dir_of(path);
    ModelMetadata {
        unique_id,
        name,
        fully_qualified_path: path.to_owned(),
        relative_path: relative,
        file_name,
        parent_dir,
    }
}

// ----------------------------------------------------------------------
// Column upsert: the name-keyed column map of a record.
// ----------------------------------------------------------------------

/// The names of a column list, in order.
pub open spec fn col_names(cols: Seq<ColumnInfo>) -> Seq<Seq<char>> {
    Seq::new(cols.len(), |i: int| cols[i].name@)
}

/// The first column with the given name, or minus one.
pub open spec fn find_col_index(cols: Seq<ColumnInfo>, name: Seq<char>) -> int
    decreases cols,
{
    if cols.len() == 0 {
        -1
    } else if cols[0].name@ == name {
        0
    } else if find_col_index(cols.drop_first(), name) == -1 {
        -1
    } else {
        1 + find_col_index(cols.drop_first(), name)
    }
}

pub proof fn lemma_find_col_index(cols: Seq<ColumnInfo>, name: Seq<char>)
    ensures
        -1 <= find_col_index(cols, name) < cols.len(),
        find_col_index(cols, name) >= 0 ==> cols[find_col_index(cols, name)].name@ == name,
        forall|k: int| 0 <= k < find_col_index(cols, name) ==> cols[k].name@ != name,
        find_col_index(cols, name) == -1 ==> forall|k: int|
            0 <= k < cols.len() ==> cols[k].name@ != name,
    decreases cols,
{
    if cols.len() == 0 {
    } else if cols[0].name@ == name {
    } else {
        lemma_find_col_index(cols.drop_first(), name);
        let r = find_col_index(cols.drop_first(), name);
        if r >= 0 {
            assert(cols[1 + r] == cols.drop_first()[r]);
            assert forall|k: int| 0 <= k < 1 + r implies cols[k].name@ != name by {
                if k > 0 {
                    assert(cols[k] == cols.drop_first()[k - 1]);
                }
            }
        } else {
            assert forall|k: int| 0 <= k < cols.len() implies cols[k].name@ != name by {
                if k > 0 {
                    assert(cols[k] == cols.drop_first()[k - 1]);
                }
            }
        }
    }
}

/// The last sidecar column entry carrying the given name, or minus one.
pub open spec fn last_yaml_col(ys: Seq<YamlColumnData>, name: Seq<char>) -> int
    decreases ys,
{
    if ys.len() == 0 {
        -1
    } else if ys.last().name@ == name {
        ys.len() - 1
    } else {
        last_yaml_col(ys.drop_last(), name)
    }
}

pub proof fn lemma_last_yaml_col(ys: Seq<YamlColumnData>, name: Seq<char>)
    ensures
        -1 <= last_yaml_col(ys, name) < ys.len(),
        last_yaml_col(ys, name) >= 0 ==> ys[last_yaml_col(ys, name)].name@ == name,
        last_yaml_col(ys, name) == -1 ==> forall|k: int|
            0 <= k < ys.len() ==> ys[k].name@ != name,
    decreases ys,
{
    if ys.len() == 0 {
    } else {
        lemma_last_yaml_col(ys.drop_last(), name);
        if last_yaml_col(ys, name) == -1 {
            assert forall|k: int| 0 <= k < ys.len() implies ys[k].name@ != name by {
                if k < ys.len() - 1 {
                    assert(ys.drop_last()[k] == ys[k]);
                }
            }
        }
    }
}

/// What one stored column copies from one sidecar column entry.
pub open spec fn column_matches_yaml(c: ColumnInfo, y: YamlColumnData) -> bool {
    &&& c.name@ == y.name@
    &&& c.description.deep_view() == y.description.deep_view()
    &&& c.data_type.deep_view() == y.data_type.deep_view()
    &&& (match y.tests {
        Option::Some(ts) => c.tests == ts,
        Option::None => c.tests@.len() == 0,
    })
    &&& (match y.meta {
        Option::Some(m) => c.meta == m,
        Option::None => c.meta@.len() == 0,
    })
    &&& c.source_columns@.len() == 0
}

/// How a column map looks after the sidecar's column entries were folded in:
/// names stay unique; a column either copies the last sidecar entry of its
/// name or is an untouched old column; nothing is lost.
pub open spec fn columns_apply_post(
    oldc: Seq<ColumnInfo>,
    ys: Seq<YamlColumnData>,
    newc: Seq<ColumnInfo>,
) -> bool {
    &&& strutil::no_dup_seqs(col_names(newc))
    &&& newc.len() >= oldc.len()
    &&& (forall|j: int| 0 <= j < oldc.len() ==> newc[j].name@ == oldc[j].name@)
    &&& (forall|j: int|
        0 <= j < newc.len() ==> {
            let li = last_yaml_col(ys, newc[j].name@);
            if li >= 0 {
                column_matches_yaml(#[trigger] newc[j], ys[li])
            } else {
                j < oldc.len() && newc[j] == oldc[j]
            }
        })
    &&& (forall|k: int| 0 <= k < ys.len() ==> col_names(newc).contains(#[trigger] ys[k].name@))
    &&& (forall|j: int| 0 <= j < oldc.len() ==> col_names(newc).contains(#[trigger] oldc[j].name@))
}

/// Builds the stored column for one sidecar entry.
fn column_from_yaml(y: YamlColumnData) -> (c: ColumnInfo)
    ensures
        column_matches_yaml(c, y),
        c.name == y.name,
{
    let YamlColumnData { name, description, data_type, tests, meta } = y;
    let tests_v: Vec<String> = match tests {
        Option::Some(ts) => ts,
        Option::None => Vec::new(),
    };
    let meta_v: Vec<MetaEntry> = match meta {
        Option::Some(m) => m,
        Option::None => Vec::new(),
    };
    ColumnInfo {
        name,
        description,
        data_type,
        tests: tests_v,
        meta: meta_v,
        source_columns: Vec::new(),
    }
}

/// Inserts one column, replacing the first stored column of the same name.
fn upsert_column(cols: &mut Vec<ColumnInfo>, c: ColumnInfo)
    ensures
        find_col_index(old(cols)@, c.name@) == -1 ==> final(cols)@ == old(cols)@.push(c),
        find_col_index(old(cols)@, c.name@) >= 0 ==> final(cols)@ == old(cols)@.update(
            find_col_index(old(cols)@, c.name@),
            c,
        ),
{
    proof {
        lemma_find_col_index(cols@, c.name@);
    }
    let n: usize = cols.len();
    let mut j: usize = 0;
    while j < n
        invariant
            cols@ == old(cols)@,
            n == cols@.len(),
            0 <= j <= n,
            forall|k: int| 0 <= k < j ==> cols@[k].name@ != c.name@,
        decreases n - j,
    {
        if strutil::str_eq(cols[j].as_name(), c.name.as_str()) {
            proof {
                lemma_find_col_index(cols@, c.name@);
                let fi = find_col_index(cols@, c.name@);
                assert(cols@[j as int].name@ == c.name@);
                assert(fi >= 0);
                if fi < j {
                    assert(cols@[fi].name@ == c.name@);
                    assert(false);
                }
                if fi > j {
                    assert(cols@[j as int].name@ != c.name@);
                    assert(false);
                }
            }
            let slot = &mut cols[j];
            *slot = c;
            return ;
        }
        j = j + 1;
    }
    proof {
        lemma_find_col_index(cols@, c.name@);
        let fi = find_col_index(cols@, c.name@);
        if fi >= 0 {
            assert(cols@[fi].name@ == c.name@);
            assert(false);
        }
    }
    cols.push(c);
}

impl ColumnInfo {
    /// The column's name as a borrowed string.
    fn as_name(&self) -> (r: &str)
        ensures
            r@ == self.name@,
    {
        self.name.as_str()
    }
}

/// Folds the sidecar's column entries into the stored column map, last entry
/// of each name winning.
fn apply_columns(cols: &mut Vec<ColumnInfo>, ys: Vec<YamlColumnData>)
    requires
        strutil::no_dup_seqs(col_names(old(cols)@)),
    ensures
        columns_apply_post(old(cols)@, ys@, final(cols)@),
{
    let ghost orig = ys@;
    let ghost oldc = cols@;
    let mut rest = ys;
    let ghost i: int = 0;
    proof {
        assert(orig.take(0) =~= Seq::<YamlColumnData>::empty());
    }
    while rest.len() > 0
        invariant
            0 <= i <= orig.len(),
            rest@ =~= orig.skip(i),
            strutil::no_dup_seqs(col_names(cols@)),
            cols@.len() >= oldc.len(),
            forall|j: int| 0 <= j < oldc.len() ==> cols@[j].name@ == oldc[j].name@,
            forall|j: int|
                0 <= j < cols@.len() ==> {
                    let li = last_yaml_col(orig.take(i), cols@[j].name@);
                    if li >= 0 {
                        column_matches_yaml(#[trigger] cols@[j], orig[li])
                    } else {
                        j < oldc.len() && cols@[j] == oldc[j]
                    }
                },
            forall|k: int| 0 <= k < i ==> col_names(cols@).contains(#[trigger] orig[k].name@),
        decreases rest@.len(),
    {
        let y = rest.remove(0);
        proof {
            assert(y == orig[i]);
            assert(rest@ =~= orig.skip(i + 1));
        }
        let ghost prev = cols@;
        let c = column_from_yaml(y);
        proof {
            lemma_find_col_index(prev, c.name@);
        }
        upsert_column(cols, c);
        proof {
            let fi = find_col_index(prev, c.name@);
            assert(orig.take(i + 1).drop_last() =~= orig.take(i));
            assert(orig.take(i + 1).last() == orig[i]);
            // names at each position after the step
            if fi == -1 {
                assert(cols@ =~= prev.push(c));
                assert(col_names(cols@) =~= col_names(prev).push(c.name@));
                assert(strutil::no_dup_seqs(col_names(cols@))) by {
                    assert forall|a: int, b: int|
                        0 <= a < b < col_names(cols@).len() implies col_names(cols@)[a]
                        != col_names(cols@)[b] by {
                        if b == col_names(cols@).len() - 1 {
                            assert(col_names(cols@)[a] == prev[a].name@);
                            assert(prev[a].name@ != c.name@);
                        }
                    }
                }
            } else {
                assert(cols@ =~= prev.update(fi, c));
                assert(prev[fi].name@ == c.name@);
                assert(col_names(cols@) =~= col_names(prev)) by {
                    assert forall|a: int| 0 <= a < col_names(cols@).len() implies col_names(
                        cols@,
                    )[a] == col_names(prev)[a] by {
                        if a == fi {
                            assert(cols@[a].name@ == c.name@);
                        }
                    }
                }
            }
            assert forall|j: int| 0 <= j < cols@.len() implies {
                let li = last_yaml_col(orig.take(i + 1), cols@[j].name@);
                if li >= 0 {
                    column_matches_yaml(#[trigger] cols@[j], orig[li])
                } else {
                    j < oldc.len() && cols@[j] == oldc[j]
                }
            } by {
                let nm = cols@[j].name@;
                if nm == orig[i].name@ {
                    assert(last_yaml_col(orig.take(i + 1), nm) == i);
                    if fi == -1 {
                        if j < prev.len() {
                            assert(prev[j].name@ == nm);
                            lemma_find_col_index(prev, nm);
                        } else {
                            assert(cols@[j] == c);
                        }
                    } else {
                        if j != fi {
                            assert(cols@[j] == prev[j]);
                            assert(prev[j].name@ == nm);
                            assert(prev[fi].name@ == nm);
                            assert(col_names(prev)[j] == nm && col_names(prev)[fi] == nm);
                            assert(false);
                        } else {
                            assert(cols@[j] == c);
                        }
                    }
                } else {
                    assert(last_yaml_col(orig.take(i + 1), nm) == last_yaml_col(
                        orig.take(i),
                        nm,
                    ));
                    if fi == -1 {
                        if j < prev.len() {
                            assert(cols@[j] == prev[j]);
                        } else {
                            assert(cols@[j] == c);
                            assert(nm == c.name@ && c.name@ == orig[i].name@);
                        }
                    } else {
                        if j == fi {
                            assert(cols@[j] == c);
                            assert(nm == orig[i].name@);
                        } else {
                            assert(cols@[j] == prev[j]);
                        }
                    }
                }
            }
            assert forall|k: int| 0 <= k < i + 1 implies col_names(cols@).contains(
                #[trigger] orig[k].name@,
            ) by {
                if k < i {
                    assert(col_names(prev).contains(orig[k].name@));
                    let a = choose|a: int|
                        0 <= a < col_names(prev).len() && col_names(prev)[a] == orig[k].name@;
                    if fi == -1 {
                        assert(col_names(cols@)[a] == orig[k].name@);
                    } else {
                        if a == fi {
                            assert(cols@[a].name@ == c.name@ && c.name@ == prev[a].name@);
                        }
                        assert(col_names(cols@)[a] == orig[k].name@);
                    }
                } else {
                    if fi == -1 {
                        assert(col_names(cols@)[cols@.len() - 1] == c.name@);
                    } else {
                        assert(col_names(cols@)[fi] == c.name@);
                    }
                }
            }
            i = i + 1;
        }
    }
    proof {
        assert(i == orig.len());
        assert(orig.take(i) =~= orig);
        assert forall|j: int| 0 <= j < oldc.len() implies col_names(cols@).contains(
            #[trigger] oldc[j].name@,
        ) by {
            assert(cols@[j].name@ == oldc[j].name@);
            assert(col_names(cols@)[j] == oldc[j].name@);
        }
    }
}

// ----------------------------------------------------------------------
// The model record.
// ----------------------------------------------------------------------

/// The first `models:` entry of a sidecar carrying the given name, or minus
/// one: only that entry is applied.
pub open spec fn first_model_match(ms: Seq<YamlModelData>, name: Seq<char>) -> int
    decreases ms,
{
    if ms.len() == 0 {
        -1
    } else if ms[0].name@ == name {
        0
    } else if first_model_match(ms.drop_first(), name) == -1 {
        -1
    } else {
        1 + first_model_match(ms.drop_first(), name)
    }
}

pub proof fn lemma_first_model_match(ms: Seq<YamlModelData>, name: Seq<char>)
    ensures
        -1 <= first_model_match(ms, name) < ms.len(),
        first_model_match(ms, name) >= 0 ==> ms[first_model_match(ms, name)].name@ == name,
        forall|k: int| 0 <= k < first_model_match(ms, name) ==> ms[k].name@ != name,
        first_model_match(ms, name) == -1 ==> forall|k: int|
            0 <= k < ms.len() ==> ms[k].name@ != name,
    decreases ms,
{
    if ms.len() == 0 {
    } else if ms[0].name@ == name {
    } else {
        lemma_first_model_match(ms.drop_first(), name);
        let r = first_model_match(ms.drop_first(), name);
        if r >= 0 {
            assert(ms[1 + r] == ms.drop_first()[r]);
            assert forall|k: int| 0 <= k < 1 + r implies ms[k].name@ != name by {
                if k > 0 {
                    assert(ms[k] == ms.drop_first()[k - 1]);
                }
            }
        } else {
            assert forall|k: int| 0 <= k < ms.len() implies ms[k].name@ != name by {
                if k > 0 {
                    assert(ms[k] == ms.drop_first()[k - 1]);
                }
            }
        }
    }
}

/// The first meta entry under the given key, or minus one.
pub open spec fn find_meta_index(ms: Seq<MetaEntry>, key: Seq<char>) -> int
    decreases ms,
{
    if ms.len() == 0 {
        -1
    } else if ms[0].key@ == key {
        0
    } else if find_meta_index(ms.drop_first(), key) == -1 {
        -1
    } else {
        1 + find_meta_index(ms.drop_first(), key)
    }
}

pub proof fn lemma_find_meta_index(ms: Seq<MetaEntry>, key: Seq<char>)
    ensures
        -1 <= find_meta_index(ms, key) < ms.len(),
        find_meta_index(ms, key) >= 0 ==> ms[find_meta_index(ms, key)].key@ == key,
        forall|k: int| 0 <= k < find_meta_index(ms, key) ==> ms[k].key@ != key,
        find_meta_index(ms, key) == -1 ==> forall|k: int| 0 <= k < ms.len() ==> ms[k].key@ != key,
    decreases ms,
{
    if ms.len() == 0 {
    } else if ms[0].key@ == key {
    } else {
        lemma_find_meta_index(ms.drop_first(), key);
        let r = find_meta_index(ms.drop_first(), key);
        if r >= 0 {
            assert(ms[1 + r] == ms.drop_first()[r]);
            assert forall|k: int| 0 <= k < 1 + r implies ms[k].key@ != key by {
                if k > 0 {
                    assert(ms[k] == ms.drop_first()[k - 1]);
                }
            }
        } else {
            assert forall|k: int| 0 <= k < ms.len() implies ms[k].key@ != key by {
                if k > 0 {
                    assert(ms[k] == ms.drop_first()[k - 1]);
                }
            }
        }
    }
}

/// The tag list a meta mapping declares: the value under `tags` where that
/// value is an array of strings.
pub open spec fn tags_from_meta(ms: Seq<MetaEntry>) -> Option<Seq<Seq<char>>> {
    let i = find_meta_index(ms, "tags"@);
    if i >= 0 {
        match ms[i].value {
            MetaValue::StrList(ts) => Option::Some(ts.deep_view()),
            MetaValue::Str(_) => Option::None,
            MetaValue::Other => Option::None,
        }
    } else {
        Option::None
    }
}

/// The position of the first `tags` entry of a meta mapping, if any.
fn find_tags_entry(entries: &Vec<MetaEntry>) -> (r: Option<usize>)
    ensures
        (match r {
            Option::Some(i) => i == find_meta_index(entries@, "tags"@) && i < entries@.len(),
            Option::None => find_meta_index(entries@, "tags"@) == -1,
        }),
{
    proof {
        lemma_find_meta_index(entries@, "tags"@);
    }
    let n: usize = entries.len();
    let mut i: usize = 0;
    while i < n
        invariant
            n == entries@.len(),
            0 <= i <= n,
            forall|j: int| 0 <= j < i ==> entries@[j].key@ != "tags"@,
        decreases n - i,
    {
        if strutil::str_eq(entries[i].key.as_str(), "tags") {
            proof {
                lemma_find_meta_index(entries@, "tags"@);
                let fi = find_meta_index(entries@, "tags"@);
                assert(entries@[i as int].key@ == "tags"@);
                assert(fi >= 0);
                if fi < i {
                    assert(entries@[fi].key@ == "tags"@);
                    assert(false);
                }
                if fi > i {
                    assert(entries@[i as int].key@ != "tags"@);
                    assert(false);
                }
            }
            return Option::Some(i);
        }
        i = i + 1;
    }
    proof {
        lemma_find_meta_index(entries@, "tags"@);
        let fi = find_meta_index(entries@, "tags"@);
        if fi >= 0 {
            assert(entries@[fi].key@ == "tags"@);
            assert(false);
        }
    }
    Option::None
}

/// Represents one parsed SQL model file with its metadata and dependencies.
pub struct SqlModel {
    pub unique_id: String,
    pub name: String,
    pub fully_qualified_file_path: String,
    pub relative_file_path: String,
    pub file_name: String,
    pub checksum: String,
    pub parent_dir: String,
    pub raw_sql: String,
    pub compiled_sql: Option<String>,
    pub ast: Vec<Statement>,
    pub referenced_tables: Vec<String>,
    pub upstream_models: Vec<String>,
    pub downstream_models: Vec<String>,
    pub external_sources: Vec<String>,
    pub depth: Option<usize>,
    pub description: Option<String>,
    pub dialect: String,
    pub tags: Vec<String>,
    pub meta: Vec<MetaEntry>,
    pub materialized: Option<String>,
    pub database: Option<String>,
    pub schema: Option<String>,
    pub object_name: Option<String>,
    pub alias: Option<String>,
    pub created_at: i64,
    pub updated_at: i64,
    pub columns: Vec<ColumnInfo>,
    pub is_valid_structure: bool,
    pub structure_errors: Vec<String>,
}

impl SqlModel {
    /// Basic well-formedness: column names are unique, and the dependency
    /// fields hold no duplicates.
    pub open spec fn wf(self) -> bool {
        &&& strutil::no_dup_seqs(col_names(self.columns@))
        &&& strutil::no_dup_seqs(self.referenced_tables.deep_view())
        &&& strutil::no_dup_seqs(self.upstream_models.deep_view())
        &&& strutil::no_dup_seqs(self.downstream_models.deep_view())
        &&& strutil::no_dup_seqs(self.external_sources.deep_view())
    }

    /// Builds a record from plain parts: the path identity, the raw SQL text
    /// and its parsed statements.  References are not extracted here; the
    /// caller invokes `extract_dependencies` next.
    pub fn from_content(
        path: &str,
        project_root: &str,
        content: String,
        ast: Vec<Statement>,
        dialect_name: &str,
        is_valid_structure: bool,
        structure_errors: Vec<String>,
    ) -> (m: SqlModel)
        ensures
            m.wf(),
            m.unique_id@ == unique_id_seq(path@, project_root@),
            m.name@ == file_stem_seq(strutil::base_name_seq(path@)),
            m.fully_qualified_file_path@ == path@,
            m.relative_file_path@ == strutil::relative_to_seq(path@, project_root@),
            m.file_name@ == strutil::base_name_seq(path@),
            m.parent_dir@ == strutil::parent_dir_seq(path@),
            m.checksum@ == sha256_hex_of(content@),
            m.raw_sql == content,
            m.compiled_sql is None,
            m.ast == ast,
            m.referenced_tables@.len() == 0,
            m.upstream_models@.len() == 0,
            m.downstream_models@.len() == 0,
            m.external_sources@.len() == 0,
            m.depth is None,
            m.description is None,
            m.dialect@ == dialect_name@,
            m.tags@.len() == 0,
            m.meta@.len() == 0,
            m.materialized is None,
            m.database is None,
            m.schema is None,
            m.object_name is None,
            m.alias is None,
            m.created_at == m.updated_at,
            m.columns@.len() == 0,
            m.is_valid_structure == is_valid_structure,
            m.structure_errors == structure_errors,
    {
        let meta = extract_file_metadata(path, project_root);
        let checksum = sha256_hex(content.as_str());
        let now: i64 = now_timestamp_micros();
        let m = SqlModel {
            unique_id: meta.unique_id,
            name: meta.name,
            fully_qualified_file_path: meta.fully_qualified_path,
            relative_file_path: meta.relative_path,
            file_name: meta.file_name,
            checksum,
            parent_dir: meta.parent_dir,
            raw_sql: content,
            compiled_sql: Option::None,
            ast,
            referenced_tables: Vec::new(),
            upstream_models: Vec::new(),
            downstream_models: Vec::new(),
            external_sources: Vec::new(),
            depth: Option::None,
            description: Option::None,
            dialect: dialect_name.to_owned(),
            tags: Vec::new(),
            meta: Vec::new(),
            materialized: Option::None,
            database: Option::None,
            schema: Option::None,
            object_name: Option::None,
            alias: Option::None,
            created_at: now,
            updated_at: now,
            columns: Vec::new(),
            is_valid_structure,
            structure_errors,
        };
        proof {
            assert(col_names(m.columns@) =~= Seq::<Seq<char>>::empty());
        }
        m
    }

    /// Stores the reference set of the record's statements: the qualified
    /// names the extractor yields, duplicates dropped.
    pub fn extract_dependencies(&mut self)
        ensures
            final(self).referenced_tables.deep_view() == extract::dedup_names(
                extract::external_names(old(self).ast@),
            ),
            strutil::no_dup_seqs(final(self).referenced_tables.deep_view()),
            *final(self) == (SqlModel {
                referenced_tables: final(self).referenced_tables,
                ..*old(self)
            }),
            old(self).wf() ==> final(self).wf(),
    {
        let refs = extract::get_external_table_deps_set(&self.ast);
        self.referenced_tables = refs;
    }

    /// The external sources resolved for this record, as their own vector.
    pub fn get_external_sources(&self) -> (r: Vec<String>)
        ensures
            r.deep_view() == self.external_sources.deep_view(),
    {
        broadcast use vstd::std_specs::vec::vec_clone_deep_view_proof;

        let r = self.external_sources.clone();
        proof {
            assert(r.deep_view() =~= self.external_sources.deep_view());
        }
        r
    }

    /// Applies the first matching `models:` entry of the sidecar to this
    /// record; later entries and other names are ignored.
    pub fn apply_yaml_config(&mut self, cfg: YamlConfigData)
        requires
            strutil::no_dup_seqs(col_names(old(self).columns@)),
        ensures
            ({
                let k = first_model_match(cfg.models@, old(self).name@);
                if k == -1 {
                    *final(self) == *old(self)
                } else {
                    let e = cfg.models@[k];
                    &&& final(self).description == e.description
                    &&& final(self).database == e.database_name
                    &&& final(self).schema == e.schema_name
                    &&& final(self).object_name == e.object_name
                    &&& final(self).materialized == (match e.config {
                        Option::Some(c) => c.materialized,
                        Option::None => old(self).materialized,
                    })
                    &&& (match e.meta {
                        Option::Some(m) => final(self).meta == m,
                        Option::None => final(self).meta == old(self).meta,
                    })
                    &&& final(self).tags.deep_view() == (match e.meta {
                        Option::Some(m) => match tags_from_meta(m@) {
                            Option::Some(ts) => ts,
                            Option::None => old(self).tags.deep_view(),
                        },
                        Option::None => old(self).tags.deep_view(),
                    })
                    &&& (match e.columns {
                        Option::Some(cs) => columns_apply_post(
                            old(self).columns@,
                            cs@,
                            final(self).columns@,
                        ),
                        Option::None => final(self).columns == old(self).columns,
                    })
                    &&& final(self).unique_id == old(self).unique_id
                    &&& final(self).name == old(self).name
                    &&& final(self).checksum == old(self).checksum
                    &&& final(self).raw_sql == old(self).raw_sql
                    &&& final(self).ast == old(self).ast
                    &&& final(self).referenced_tables == old(self).referenced_tables
                    &&& final(self).upstream_models == old(self).upstream_models
                    &&& final(self).downstream_models == old(self).downstream_models
                    &&& final(self).external_sources == old(self).external_sources
                    &&& final(self).depth == old(self).depth
                    &&& final(self).is_valid_structure == old(self).is_valid_structure
                    &&& final(self).structure_errors == old(self).structure_errors
                }
            }),
    {
        let name_copy = self.name.clone();
        let n: usize = cfg.models.len();
        let mut models = cfg.models;
        let mut k: usize = 0;
        while k < n
            invariant
                *self == *old(self),
                strutil::no_dup_seqs(col_names(old(self).columns@)),
                models@ == cfg.models@,
                n == models@.len(),
                0 <= k <= n,
                name_copy@ == old(self).name@,
                forall|j: int| 0 <= j < k ==> models@[j].name@ != name_copy@,
            decreases n - k,
        {
            if strutil::str_eq(models[k].name.as_str(), name_copy.as_str()) {
                proof {
                    lemma_first_model_match(models@, name_copy@);
                    let fi = first_model_match(models@, name_copy@);
                    assert(models@[k as int].name@ == name_copy@);
                    assert(fi >= 0);
                    if fi < k {
                        assert(models@[fi].name@ == name_copy@);
                        assert(false);
                    }
                    if fi > k {
                        assert(models@[k as int].name@ != name_copy@);
                        assert(false);
                    }
                }
                let e = models.remove(k);
                self.apply_model_entry(e);
                return ;
            }
            k = k + 1;
        }
        proof {
            lemma_first_model_match(models@, name_copy@);
            let fi = first_model_match(models@, name_copy@);
            if fi >= 0 {
                assert(models@[fi].name@ == name_copy@);
                assert(false);
            }
        }
    }

    /// Applies one sidecar entry: description, location, materialization,
    /// meta with its tags, and the column map.
    fn apply_model_entry(&mut self, e: YamlModelData)
        requires
            strutil::no_dup_seqs(col_names(old(self).columns@)),
        ensures
            final(self).description == e.description,
            final(self).database == e.database_name,
            final(self).schema == e.schema_name,
            final(self).object_name == e.object_name,
            final(self).materialized == (match e.config {
                Option::Some(c) => c.materialized,
                Option::None => old(self).materialized,
            }),
            (match e.meta {
                Option::Some(m) => final(self).meta == m,
                Option::None => final(self).meta == old(self).meta,
            }),
            final(self).tags.deep_view() == (match e.meta {
                Option::Some(m) => match tags_from_meta(m@) {
                    Option::Some(ts) => ts,
                    Option::None => old(self).tags.deep_view(),
                },
                Option::None => old(self).tags.deep_view(),
            }),
            (match e.columns {
                Option::Some(cs) => columns_apply_post(
                    old(self).columns@,
                    cs@,
                    final(self).columns@,
                ),
                Option::None => final(self).columns == old(self).columns,
            }),
            final(self).unique_id == old(self).unique_id,
            final(self).name == old(self).name,
            final(self).checksum == old(self).checksum,
            final(self).raw_sql == old(self).raw_sql,
            final(self).ast == old(self).ast,
            final(self).referenced_tables == old(self).referenced_tables,
            final(self).upstream_models == old(self).upstream_models,
            final(self).downstream_models == old(self).downstream_models,
            final(self).external_sources == old(self).external_sources,
            final(self).depth == old(self).depth,
            final(self).is_valid_structure == old(self).is_valid_structure,
            final(self).structure_errors == old(self).structure_errors,
    {
        broadcast use vstd::std_specs::vec::vec_clone_deep_view_proof;

        let YamlModelData {
            name: _,
            description,
            meta,
            config,
            database_name,
            schema_name,
            object_name,
            columns,
        } = e;
        self.description = description;
        match meta {
            Option::Some(m) => {
                self.meta = m;
                match find_tags_entry(&self.meta) {
                    Option::Some(ti) => {
                        match &self.meta[ti].value {
                            MetaValue::StrList(ts) => {
                                let copied = ts.clone();
                                proof {
                                    assert(copied.deep_view() =~= ts.deep_view());
                                }
                                self.tags = copied;
                            },
                            MetaValue::Str(_) => {
                            },
                            MetaValue::Other => {
                            },
                        }
                    },
                    Option::None => {
                    },
                }
            },
            Option::None => {
            },
        }
        match config {
            Option::Some(c) => {
                self.materialized = c.materialized;
            },
            Option::None => {
            },
        }
        self.database = database_name;
        self.schema = schema_name;
        self.object_name = object_name;
        match columns {
            Option::Some(cs) => {
                apply_columns(&mut self.columns, cs);
            },
            Option::None => {
            },
        }
    }

    /// The message `validate_structure` reports when the layout is invalid.
    pub open spec fn structure_error_message(self) -> Seq<char> {
        "Invalid model structure for "@ + self.fully_qualified_file_path@ + ": "@
            + strutil::join_with(self.structure_errors.deep_view(), ", "@)
    }

    /// Fails exactly when the record's directory layout was found invalid,
    /// with its accumulated errors in the message.
    pub fn validate_structure(&self) -> (r: Result<(), String>)
        ensures
            self.is_valid_structure <==> r is Ok,
            r is Err ==> r->Err_0@ == self.structure_error_message(),
    {
        if self.is_valid_structure {
            Result::Ok(())
        } else {
            let mut msg = String::from_str("Invalid model structure for ");
            msg = msg.concat(self.fully_qualified_file_path.as_str());
            msg = msg.concat(": ");
            let joined = strutil::join_strings(&self.structure_errors, ", ");
            msg = msg.concat(joined.as_str());
            Result::Err(msg)
        }
    }

    /// Column-level lineage is a sibling feature the planner only stores
    /// results for; a record computes none of its own.
    pub fn extract_column_lineage(&mut self) -> (r: Result<
        Vec<crate::lineage::ColumnLineage>,
        String,
    >)
        ensures
            r is Ok,
            r->Ok_0@.len() == 0,
            *final(self) == *old(self),
    {
        Result::Ok(Vec::new())
    }

    /// Recomputes the checksum over the compiled SQL where present, else the
    /// raw SQL, and touches the update instant.
    pub fn update_checksum(&mut self)
        ensures
            final(self).checksum@ == sha256_hex_of(
                match old(self).compiled_sql {
                    Option::Some(c) => c@,
                    Option::None => old(self).raw_sql@,
                },
            ),
            *final(self) == (SqlModel {
                checksum: final(self).checksum,
                updated_at: final(self).updated_at,
                ..*old(self)
            }),
    {
        let checksum = match &self.compiled_sql {
            Option::Some(c) => sha256_hex(c.as_str()),
            Option::None => sha256_hex(self.raw_sql.as_str()),
        };
        self.checksum = checksum;
        self.updated_at = now_timestamp_micros();
    }
}

} // verus!
