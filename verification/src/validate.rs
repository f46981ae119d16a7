//! The directory-structure validator.
//!
//! The file system itself is the embedder's business: the validator consumes
//! a directory's path and the names of the files it holds, and decides
//! whether the layout is the one a model requires — a `.sql` and a `.yml`
//! named after the directory, the `.sql` waived under an imports subtree.

use vstd::prelude::*;
use vstd::string::StrSliceExecFns;
use vstd::string::StringExecFns;

use crate::strutil;

verus! {

/// One directory as handed in by the embedder: its path and the plain file
/// names it holds.
pub struct DirEntry {
    pub path: String,
    pub is_dir: bool,
    pub files: Vec<String>,
}

/// The mathematical shadow of a directory entry.
pub struct DirEntryView {
    pub path: Seq<char>,
    pub is_dir: bool,
    pub files: Seq<Seq<char>>,
}

impl View for DirEntry {
    type V = DirEntryView;

    open spec fn view(&self) -> DirEntryView {
        DirEntryView { path: self.path@, is_dir: self.is_dir, files: self.files.deep_view() }
    }
}

/// Result of a file structure validation.
pub struct ValidationResult {
    pub is_valid: bool,
    pub path: String,
    pub errors: Vec<String>,
}

/// The mathematical shadow of a validation result.
pub struct ValidationResultView {
    pub is_valid: bool,
    pub path: Seq<char>,
    pub errors: Seq<Seq<char>>,
}

impl View for ValidationResult {
    type V = ValidationResultView;

    open spec fn view(&self) -> ValidationResultView {
        ValidationResultView {
            is_valid: self.is_valid,
            path: self.path@,
            errors: self.errors.deep_view(),
        }
    }
}

impl ValidationResult {
    /// A passing result for a path.
    pub fn valid(path: String) -> (r: ValidationResult)
        ensures
            r@ == (ValidationResultView {
                is_valid: true,
                path: path@,
                errors: Seq::empty(),
            }),
    {
        let r = ValidationResult { is_valid: true, path, errors: Vec::new() };
        proof {
            assert(r.errors.deep_view() =~= Seq::<Seq<char>>::empty());
        }
        r
    }

    /// A failing result carrying its errors.
    pub fn invalid(path: String, errors: Vec<String>) -> (r: ValidationResult)
        ensures
            r@ == (ValidationResultView {
                is_valid: false,
                path: path@,
                errors: errors.deep_view(),
            }),
    {
        ValidationResult { is_valid: false, path, errors }
    }

    /// Appends one error, marking the result failed.
    pub fn add_error(&mut self, error: String)
        ensures
            final(self)@ == (ValidationResultView {
                is_valid: false,
                path: old(self).path@,
                errors: old(self).errors.deep_view().push(error@),
            }),
    {
        self.is_valid = false;
        let ghost prev = self.errors.deep_view();
        let ghost ev = error@;
        self.errors.push(error);
        proof {
            assert(self.errors.deep_view() =~= prev.push(ev));
        }
    }
}

/// Whether a path sits in an imports subtree: the path holds `/imports/`, or
/// its final component is `imports`.
pub open spec fn is_imports_dir(path: Seq<char>) -> bool {
    strutil::has_substring(path, "/imports/"@) || strutil::base_name_seq(path) == "imports"@
}

/// The `Unexpected file` messages for the files a directory must not hold,
/// in the order the files were listed.
pub open spec fn unexpected_msgs(
    path: Seq<char>,
    name: Seq<char>,
    imports: bool,
    files: Seq<Seq<char>>,
) -> Seq<Seq<char>>
    decreases files,
{
    if files.len() == 0 {
        Seq::empty()
    } else {
        let f = files.last();
        let ok = f == name + ".yml"@ || (!imports && f == name + ".sql"@);
        unexpected_msgs(path, name, imports, files.drop_last()) + (if ok {
            Seq::empty()
        } else if imports {
            seq![
                "Unexpected file in imports directory: "@ + f + " (only "@ + name + ".yml"@
                    + " is expected)"@,
            ]
        } else {
            seq![
                "Unexpected file in model directory: "@ + f + " (only "@ + name + ".sql"@
                    + " and "@ + name + ".yml"@ + " are expected)"@,
            ]
        })
    }
}

/// Every error one directory's layout earns.
pub open spec fn validate_errors(d: DirEntryView) -> Seq<Seq<char>> {
    if !d.is_dir {
        seq!["Path is not a directory: "@ + d.path]
    } else {
        let name = strutil::base_name_seq(d.path);
        let imports = is_imports_dir(d.path);
        (if !imports && !d.files.contains(name + ".sql"@) {
            seq![
                "Missing SQL file: "@ + name + " (expected at "@ + d.path + "/"@ + name + ".sql"@
                    + ")"@,
            ]
        } else {
            Seq::<Seq<char>>::empty()
        }) + (if !d.files.contains(name + ".yml"@) {
            seq![
                "Missing YAML file: "@ + name + " (expected at "@ + d.path + "/"@ + name + ".yml"@
                    + ")"@,
            ]
        } else {
            Seq::<Seq<char>>::empty()
        }) + unexpected_msgs(d.path, name, imports, d.files)
    }
}

/// Decides whether a path sits in an imports subtree.
pub fn check_imports_dir(path: &str) -> (r: bool)
    ensures
        r == is_imports_dir(path@),
{
    if strutil::contains_substring(path, "/imports/") {
        true
    } else {
        let name = strutil::base_name(path);
        strutil::str_eq(name.as_str(), "imports")
    }
}

/// Validates that one directory follows the model layout: a `.sql` and a
/// `.yml` named after the directory and nothing else, the `.sql` waived in
/// an imports subtree.
pub fn validate_model_structure(d: &DirEntry) -> (r: ValidationResult)
    ensures
        r@.path == d@.path,
        r@.errors == validate_errors(d@),
        r@.is_valid == (validate_errors(d@).len() == 0),
{
    if !d.is_dir {
        let mut msg = String::from_str("Path is not a directory: ");
        msg = msg.concat(d.path.as_str());
        let mut errors: Vec<String> = Vec::new();
        errors.push(msg);
        let r = ValidationResult { is_valid: false, path: d.path.clone(), errors };
        proof {
            assert(r@.errors =~= validate_errors(d@));
        }
        return r;
    }
    let name = strutil::base_name(d.path.as_str());
    let imports = check_imports_dir(d.path.as_str());
    let sql_name = name.clone().concat(".sql");
    let yml_name = name.clone().concat(".yml");
    let mut errors: Vec<String> = Vec::new();
    if !imports && !strutil::vec_contains_str(&d.files, sql_name.as_str()) {
        let mut msg = String::from_str("Missing SQL file: ");
        msg = msg.concat(name.as_str());
        msg = msg.concat(" (expected at ");
        msg = msg.concat(d.path.as_str());
        msg = msg.concat("/");
        msg = msg.concat(sql_name.as_str());
        msg = msg.concat(")");
        errors.push(msg);
    }
    if !strutil::vec_contains_str(&d.files, yml_name.as_str()) {
        let mut msg = String::from_str("Missing YAML file: ");
        msg = msg.concat(name.as_str());
        msg = msg.concat(" (expected at ");
        msg = msg.concat(d.path.as_str());
        msg = msg.concat("/");
        msg = msg.concat(yml_name.as_str());
        msg = msg.concat(")");
        errors.push(msg);
    }
    let ghost base = errors.deep_view();
    proof {
        let nm = strutil::base_name_seq(d@.path);
        assert(base =~~= (if !is_imports_dir(d@.path) && !d@.files.contains(nm + ".sql"@) {
            seq![
                "Missing SQL file: "@ + nm + " (expected at "@ + d@.path + "/"@ + nm + ".sql"@
                    + ")"@,
            ]
        } else {
            Seq::<Seq<char>>::empty()
        }) + (if !d@.files.contains(nm + ".yml"@) {
            seq![
                "Missing YAML file: "@ + nm + " (expected at "@ + d@.path + "/"@ + nm + ".yml"@
                    + ")"@,
            ]
        } else {
            Seq::<Seq<char>>::empty()
        }));
    }
    let nf: usize = d.files.len();
    let mut fi: usize = 0;
    while fi < nf
        invariant
            nf == d.files@.len(),
            0 <= fi <= nf,
            imports == is_imports_dir(d@.path),
            name@ == strutil::base_name_seq(d@.path),
            sql_name@ == name@ + ".sql"@,
            yml_name@ == name@ + ".yml"@,
            errors.deep_view() == base + unexpected_msgs(
                d@.path,
                name@,
                imports,
                d@.files.take(fi as int),
            ),
        decreases nf - fi,
    {
        proof {
            assert(d@.files.take(fi + 1).drop_last() =~= d@.files.take(fi as int));
            assert(d@.files.take(fi + 1).last() == d@.files[fi as int]);
        }
        let f = &d.files[fi];
        let is_ok = strutil::str_eq(f.as_str(), yml_name.as_str()) || (!imports && strutil::str_eq(
            f.as_str(),
            sql_name.as_str(),
        ));
        if !is_ok {
            if imports {
                let mut msg = String::from_str("Unexpected file in imports directory: ");
                msg = msg.concat(f.as_str());
                msg = msg.concat(" (only ");
                msg = msg.concat(yml_name.as_str());
                msg = msg.concat(" is expected)");
                let ghost prevdv = errors.deep_view();
                let ghost mv = msg@;
                errors.push(msg);
                proof {
                    assert(errors.deep_view() =~= prevdv.push(mv));
                }
            } else {
                let mut msg = String::from_str("Unexpected file in model directory: ");
                msg = msg.concat(f.as_str());
                msg = msg.concat(" (only ");
                msg = msg.concat(sql_name.as_str());
                msg = msg.concat(" and ");
                msg = msg.concat(yml_name.as_str());
                msg = msg.concat(" are expected)");
                let ghost prevdv = errors.deep_view();
                let ghost mv = msg@;
                errors.push(msg);
                proof {
                    assert(errors.deep_view() =~= prevdv.push(mv));
                }
            }
        }
        proof {
            assert(errors.deep_view() =~~= base + unexpected_msgs(
                d@.path,
                name@,
                imports,
                d@.files.take(fi + 1),
            ));
        }
        fi = fi + 1;
    }
    proof {
        assert(d@.files.take(nf as int) =~= d@.files);
    }
    let is_valid = errors.len() == 0;
    let r = ValidationResult { is_valid, path: d.path.clone(), errors };
    proof {
        assert(r@.errors =~= validate_errors(d@));
    }
    r
}

/// The results a directory listing earns: imports directories pass whenever
/// their own `.yml` is present; a directory that looks like a model — it
/// holds a same-stem `.sql` or `.yml` — is validated in full; anything else
/// yields nothing.
pub open spec fn directory_results(ds: Seq<DirEntryView>) -> Seq<ValidationResultView>
    decreases ds,
{
    if ds.len() == 0 {
        Seq::empty()
    } else {
        let d = ds.last();
        let name = strutil::base_name_seq(d.path);
        directory_results(ds.drop_last()) + (if is_imports_dir(d.path) {
            if d.files.contains(name + ".yml"@) {
                seq![
                    ValidationResultView {
                        is_valid: true,
                        path: d.path,
                        errors: Seq::empty(),
                    },
                ]
            } else {
                Seq::<ValidationResultView>::empty()
            }
        } else if d.files.contains(name + ".sql"@) || d.files.contains(name + ".yml"@) {
            seq![
                ValidationResultView {
                    is_valid: validate_errors(d).len() == 0,
                    path: d.path,
                    errors: validate_errors(d),
                },
            ]
        } else {
            Seq::<ValidationResultView>::empty()
        })
    }
}

/// Validates a whole directory tree, handed in as a flat pre-order listing
/// with the root first.  A root that is no directory earns a single failing
/// result.
pub fn validate_models_directory(dirs: &Vec<DirEntry>) -> (r: Vec<ValidationResult>)
    ensures
        (dirs@.len() > 0 && !dirs@[0].is_dir) ==> (r@.len() == 1 && r@[0]@
            == (ValidationResultView {
            is_valid: false,
            path: dirs@[0]@.path,
            errors: seq!["Path is not a directory: "@ + dirs@[0]@.path],
        })),
        (dirs@.len() == 0 || dirs@[0].is_dir) ==> Seq::new(r@.len(), |k: int| r@[k]@)
            == directory_results(Seq::new(dirs@.len(), |k: int| dirs@[k]@)),
{
    let nd: usize = dirs.len();
    if nd > 0 && !dirs[0].is_dir {
        let mut msg = String::from_str("Path is not a directory: ");
        msg = msg.concat(dirs[0].path.as_str());
        let mut errors: Vec<String> = Vec::new();
        errors.push(msg);
        let one = ValidationResult { is_valid: false, path: dirs[0].path.clone(), errors };
        proof {
            assert(one@.errors =~= seq!["Path is not a directory: "@ + dirs@[0]@.path]);
        }
        let mut out: Vec<ValidationResult> = Vec::new();
        out.push(one);
        return out;
    }
    let ghost dviews = Seq::new(dirs@.len(), |k: int| dirs@[k]@);
    let mut out: Vec<ValidationResult> = Vec::new();
    proof {
        assert(dviews.take(0) =~= Seq::<DirEntryView>::empty());
        assert(Seq::new(out@.len(), |k: int| out@[k]@) =~= directory_results(dviews.take(0)));
    }
    let mut di: usize = 0;
    while di < nd
        invariant
            nd == dirs@.len(),
            dviews == Seq::new(dirs@.len(), |k: int| dirs@[k]@),
            0 <= di <= nd,
            Seq::new(out@.len(), |k: int| out@[k]@) == directory_results(dviews.take(di as int)),
        decreases nd - di,
    {
        proof {
            assert(dviews.take(di + 1).drop_last() =~= dviews.take(di as int));
            assert(dviews.take(di + 1).last() == dviews[di as int]);
            assert(dviews[di as int] == dirs@[di as int]@);
        }
        let ghost prevviews = Seq::new(out@.len(), |k: int| out@[k]@);
        let d = &dirs[di];
        let name = strutil::base_name(d.path.as_str());
        let yml_name = name.clone().concat(".yml");
        let sql_name = name.clone().concat(".sql");
        if check_imports_dir(d.path.as_str()) {
            if strutil::vec_contains_str(&d.files, yml_name.as_str()) {
                let one = ValidationResult {
                    is_valid: true,
                    path: d.path.clone(),
                    errors: Vec::new(),
                };
                proof {
                    assert(one@.errors =~= Seq::<Seq<char>>::empty());
                }
                out.push(one);
            }
        } else {
            if strutil::vec_contains_str(&d.files, sql_name.as_str()) || strutil::vec_contains_str(
                &d.files,
                yml_name.as_str(),
            ) {
                let one = validate_model_structure(d);
                out.push(one);
            }
        }
        proof {
            assert(Seq::new(out@.len(), |k: int| out@[k]@) =~= directory_results(
                dviews.take(di + 1),
            ));
        }
        di = di + 1;
    }
    proof {
        assert(dviews.take(nd as int) =~= dviews);
    }
    out
}

} // verus!
