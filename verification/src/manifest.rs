//! The manifest patcher: sets a package's own version field and rewrites the
//! version requirement of every dependency entry whose name got a new
//! version, preserving whether the entry is a bare string or an inline table
//! and leaving all other formatting and comments alone. The structured
//! document editing itself comes from an outside toml library, trusted at
//! the boundary below; what is rewritten, and when a manifest shape is an
//! error, is decided and proved here.

use vstd::prelude::*;

use crate::errors::Error;
use crate::version::{version_str, version_to_string, VersionView};
use crate::vmap::VersionMap;

verus! {

/// The editable toml document type of the outside library.
#[verifier::external_type_specification]
#[verifier::external_body]
pub struct ExDocumentMut(toml_edit::DocumentMut);

/// The `package.version` string of a document, when present.
pub uninterp spec fn doc_pkg_version(d: toml_edit::DocumentMut) -> Option<Seq<char>>;

/// The dependency entries of a document's three dependency tables, keyed by
/// (table name, dependency name). The value's first component tells the
/// entry's shape — 0 a bare requirement string, 1 an inline table with a
/// string `version` key, 2 anything else — and its second the requirement
/// (empty for shape 2).
pub uninterp spec fn doc_deps(d: toml_edit::DocumentMut) -> Map<
    (Seq<char>, Seq<char>),
    (u32, Seq<char>),
>;

/// The auxiliary content of a dependency entry, keyed like [`doc_deps`]: for
/// an inline table, its keys other than `version` with their values, in
/// order; empty for a bare requirement string.
pub uninterp spec fn doc_dep_aux(d: toml_edit::DocumentMut) -> Map<
    (Seq<char>, Seq<char>),
    Seq<(Seq<char>, Seq<char>)>,
>;

/// The model a manifest text parses to, when it is valid toml: the package's
/// own version, the dependency entries, and their auxiliary content.
pub uninterp spec fn toml_model_of(text: Seq<char>) -> Option<
    (
        Option<Seq<char>>,
        Map<(Seq<char>, Seq<char>), (u32, Seq<char>)>,
        Map<(Seq<char>, Seq<char>), Seq<(Seq<char>, Seq<char>)>>,
    ),
>;

/// The key's table is one of the three dependency tables.
pub open spec fn is_dep_section(sec: Seq<char>) -> bool {
    ||| sec == "dependencies"@
    ||| sec == "dev-dependencies"@
    ||| sec == "build-dependencies"@
}

/// Relies on the toml library's parser: a lossless, comment-preserving
/// document for valid toml text, an error otherwise.
#[verifier::external_body]
fn parse_doc(text: &str) -> (r: Result<toml_edit::DocumentMut, String>)
    ensures
        match r {
            Ok(d) => {
                &&& toml_model_of(text@) == Some((doc_pkg_version(d), doc_deps(d), doc_dep_aux(d)))
                &&& forall|k: (Seq<char>, Seq<char>)|
                    #[trigger] doc_deps(d).dom().contains(k) ==> is_dep_section(k.0)
            },
            Err(_) => toml_model_of(text@) is None,
        },
{
    match text.parse::<toml_edit::DocumentMut>() {
        Ok(d) => Ok(d),
        Err(e) => Err(e.to_string()),
    }
}

/// Relies on the toml library's serializer: the rendered text parses back to
/// the same document model (editing is lossless round-tripping).
#[verifier::external_body]
fn doc_to_text(d: &toml_edit::DocumentMut) -> (r: String)
    ensures
        toml_model_of(r@) == Some((doc_pkg_version(*d), doc_deps(*d), doc_dep_aux(*d))),
{
    d.to_string()
}

/// Relies on indexed assignment in the toml library: writes the
/// `package.version` string and touches no dependency table. The field must
/// already be there as a string, so the indexing cannot go wrong.
#[verifier::external_body]
fn doc_set_pkg_version(d: &mut toml_edit::DocumentMut, v: &str)
    requires
        doc_pkg_version(*old(d)) is Some,
    ensures
        doc_pkg_version(*final(d)) == Some(v@),
        doc_deps(*final(d)) == doc_deps(*old(d)),
        doc_dep_aux(*final(d)) == doc_dep_aux(*old(d)),
{
    d["package"]["version"] = toml_edit::value(v);
}

/// The shape of one dependency entry, as the patcher distinguishes them.
#[derive(Debug, PartialEq, Eq, Clone, Copy, Structural)]
pub enum DepShape {
    /// No such entry in that table.
    Absent,
    /// A bare requirement string.
    BareString,
    /// An inline table with a string `version` key (auxiliary keys allowed).
    TableWithVersion,
    /// Any other shape; rewriting it is a structural error. This includes a
    /// dependency written as its own `[<table>.<name>]` section: rewriting
    /// is defined for the bare-string and inline-table forms only, so any
    /// other present shape is refused loudly rather than left stale.
    Unsupported,
}

/// Relies on the toml library's table lookups: classifies the entry for
/// `name` in the dependency table `section`.
#[verifier::external_body]
fn doc_dep_shape(d: &toml_edit::DocumentMut, section: &str, name: &str) -> (r: DepShape)
    ensures
        ({
            let key = (section@, name@);
            match r {
                DepShape::Absent => !doc_deps(*d).dom().contains(key),
                DepShape::BareString => doc_deps(*d).dom().contains(key) && doc_deps(*d)[key].0
                    == 0,
                DepShape::TableWithVersion => doc_deps(*d).dom().contains(key) && doc_deps(
                    *d,
                )[key].0 == 1,
                DepShape::Unsupported => doc_deps(*d).dom().contains(key) && doc_deps(*d)[key].0
                    == 2,
            }
        }),
{
    let item = match d.get(section).and_then(|s| s.as_table()).and_then(|t| t.get(name)) {
        None => return DepShape::Absent,
        Some(item) => item,
    };
    match item.as_value() {
        Some(toml_edit::Value::String(_)) => DepShape::BareString,
        Some(toml_edit::Value::InlineTable(t)) => {
            match t.get("version") {
                Some(v) if v.is_str() => DepShape::TableWithVersion,
                _ => DepShape::Unsupported,
            }
        },
        _ => DepShape::Unsupported,
    }
}

/// Relies on indexed assignment in the toml library: replaces a bare-string
/// dependency entry's requirement and touches nothing else.
#[verifier::external_body]
fn doc_set_dep_string(d: &mut toml_edit::DocumentMut, section: &str, name: &str, v: &str)
    requires
        doc_deps(*old(d)).dom().contains((section@, name@)),
        doc_deps(*old(d))[(section@, name@)].0 == 0,
    ensures
        doc_deps(*final(d)) == doc_deps(*old(d)).insert((section@, name@), (0u32, v@)),
        doc_pkg_version(*final(d)) == doc_pkg_version(*old(d)),
        doc_dep_aux(*final(d)) == doc_dep_aux(*old(d)),
{
    d[section][name] = toml_edit::value(v);
}

/// Relies on indexed assignment in the toml library: replaces the `version`
/// key inside an inline-table dependency entry, keeping its other keys.
#[verifier::external_body]
fn doc_set_dep_table_version(d: &mut toml_edit::DocumentMut, section: &str, name: &str, v: &str)
    requires
        doc_deps(*old(d)).dom().contains((section@, name@)),
        doc_deps(*old(d))[(section@, name@)].0 == 1,
    ensures
        doc_deps(*final(d)) == doc_deps(*old(d)).insert((section@, name@), (1u32, v@)),
        doc_pkg_version(*final(d)) == doc_pkg_version(*old(d)),
        doc_dep_aux(*final(d)) == doc_dep_aux(*old(d)),
{
    d[section][name]["version"] = toml_edit::value(v);
}

/// Relies on the toml library's table lookups: reads `package.version`.
#[verifier::external_body]
fn doc_get_pkg_version(d: &toml_edit::DocumentMut) -> (r: Option<String>)
    ensures
        match r {
            Some(s) => doc_pkg_version(*d) == Some(s@),
            None => doc_pkg_version(*d) is None,
        },
{
    d.get("package")
        .and_then(|p| p.as_table())
        .and_then(|t| t.get("version"))
        .and_then(|v| v.as_str())
        .map(|s| s.to_string())
}

/// Relies on the toml library's table lookups: reads the requirement of a
/// rewritable dependency entry.
#[verifier::external_body]
fn doc_get_dep_req(d: &toml_edit::DocumentMut, section: &str, name: &str) -> (r: Option<String>)
    ensures
        ({
            let key = (section@, name@);
            match r {
                Some(s) => doc_deps(*d).dom().contains(key) && doc_deps(*d)[key].0 != 2
                    && doc_deps(*d)[key].1 == s@,
                None => !doc_deps(*d).dom().contains(key) || doc_deps(*d)[key].0 == 2,
            }
        }),
{
    let item = d.get(section).and_then(|s| s.as_table()).and_then(|t| t.get(name))?;
    match item.as_value() {
        Some(toml_edit::Value::String(s)) => Some(s.value().clone()),
        Some(toml_edit::Value::InlineTable(t)) => match t.get("version") {
            Some(v) => v.as_str().map(|s| s.to_string()),
            None => None,
        },
        _ => None,
    }
}

// ---------------------------------------------------------------------------
// The verified patching logic
// ---------------------------------------------------------------------------

/// The dependency entries after rewriting one table: entries of that table
/// whose name has a new version take it, keeping their shape; everything
/// else is unchanged.
pub open spec fn patch_one_section(
    deps: Map<(Seq<char>, Seq<char>), (u32, Seq<char>)>,
    vm: Map<Seq<char>, VersionView>,
    sec: Seq<char>,
) -> Map<(Seq<char>, Seq<char>), (u32, Seq<char>)> {
    Map::new(
        |k: (Seq<char>, Seq<char>)| deps.dom().contains(k),
        |k: (Seq<char>, Seq<char>)|
            if k.0 == sec && vm.dom().contains(k.1) && (deps[k].0 == 0 || deps[k].0 == 1) {
                (deps[k].0, version_str(vm[k.1]))
            } else {
                deps[k]
            },
    )
}

/// The dependency entries after rewriting all three tables.
pub open spec fn patched_dep_map(
    deps: Map<(Seq<char>, Seq<char>), (u32, Seq<char>)>,
    vm: Map<Seq<char>, VersionView>,
) -> Map<(Seq<char>, Seq<char>), (u32, Seq<char>)> {
    Map::new(
        |k: (Seq<char>, Seq<char>)| deps.dom().contains(k),
        |k: (Seq<char>, Seq<char>)|
            if vm.dom().contains(k.1) && (deps[k].0 == 0 || deps[k].0 == 1) {
                (deps[k].0, version_str(vm[k.1]))
            } else {
                deps[k]
            },
    )
}

/// Rewrites every entry of one dependency table whose name has a new
/// version; an entry of unsupported shape that would need rewriting is a
/// structural error.
fn patch_section(doc: &mut toml_edit::DocumentMut, section: &str, versions: &VersionMap) -> (r:
    Result<(), Error>)
    requires
        versions.wf(),
    ensures
        match r {
            Ok(()) => {
                &&& doc_pkg_version(*final(doc)) == doc_pkg_version(*old(doc))
                &&& doc_dep_aux(*final(doc)) == doc_dep_aux(*old(doc))
                &&& doc_deps(*final(doc)) == patch_one_section(
                    doc_deps(*old(doc)),
                    versions.map_view(),
                    section@,
                )
                &&& forall|k: (Seq<char>, Seq<char>)|
                    #[trigger] doc_deps(*old(doc)).dom().contains(k) && k.0 == section@
                        && doc_deps(*old(doc))[k].0 == 2 ==> !versions.map_view().dom().contains(
                        k.1,
                    )
            },
            Err(Error::ManifestStructuralError(n)) => {
                &&& doc_deps(*old(doc)).dom().contains((section@, n@))
                &&& doc_deps(*old(doc))[(section@, n@)].0 == 2
                &&& versions.map_view().dom().contains(n@)
            },
            Err(_) => false,
        },
{
    let ghost orig = doc_deps(*doc);
    let ghost vm = versions.map_view();
    let ghost mut done: Set<Seq<char>> = Set::empty();
    let pairs = versions.pairs();
    let mut i: usize = 0;
    while i < pairs.len()
        invariant
            versions.wf(),
            vm == versions.map_view(),
            pairs@.len() == versions.entries_seq().len(),
            forall|j: int|
                0 <= j < pairs@.len() ==> ((#[trigger] pairs@[j]).0@, pairs@[j].1@)
                    == versions.entries_seq()[j],
            i <= pairs@.len(),
            forall|n: Seq<char>|
                #[trigger] done.contains(n) <==> exists|j: int|
                    0 <= j < i && (#[trigger] versions.entries_seq()[j]).0 == n,
            doc_pkg_version(*doc) == doc_pkg_version(*old(doc)),
            doc_dep_aux(*doc) == doc_dep_aux(*old(doc)),
            orig == doc_deps(*old(doc)),
            doc_deps(*doc) == Map::new(
                |k: (Seq<char>, Seq<char>)| orig.dom().contains(k),
                |k: (Seq<char>, Seq<char>)|
                    if k.0 == section@ && done.contains(k.1) && vm.dom().contains(k.1) && (
                    orig[k].0 == 0 || orig[k].0 == 1) {
                        (orig[k].0, version_str(vm[k.1]))
                    } else {
                        orig[k]
                    },
            ),
            forall|n: Seq<char>|
                #[trigger] done.contains(n) && orig.dom().contains((section@, n)) && orig[
                    (section@, n)].0 == 2 ==> !vm.dom().contains(n),
        decreases pairs@.len() - i,
    {
        let name = &pairs[i].0;
        let new_version = version_to_string(&pairs[i].1);
        proof {
            versions.lemma_view_corresponds();
            assert(versions.entries_seq()[i as int].0 == name@);
            assert(vm.dom().contains(name@));
            assert(vm[name@] == versions.entries_seq()[i as int].1);
            assert(new_version@ == version_str(vm[name@]));
        }
        let ghost pre = doc_deps(*doc);
        match doc_dep_shape(doc, section, name.as_str()) {
            DepShape::Absent => {},
            DepShape::BareString => {
                doc_set_dep_string(doc, section, name.as_str(), new_version.as_str());
            },
            DepShape::TableWithVersion => {
                doc_set_dep_table_version(doc, section, name.as_str(), new_version.as_str());
            },
            DepShape::Unsupported => {
                proof {
                    assert(pre.dom().contains((section@, name@)) && pre[(section@, name@)].0 == 2);
                    assert(orig.dom().contains((section@, name@)));
                    assert(orig[(section@, name@)].0 == 2) by {
                        assert(pre[(section@, name@)] == orig[(section@, name@)]);
                    }
                }
                return Err(Error::ManifestStructuralError(name.clone()));
            },
        }
        proof {
            done = done.insert(name@);
            assert forall|n: Seq<char>| #[trigger] done.contains(n) implies exists|j: int|
                0 <= j < i + 1 && (#[trigger] versions.entries_seq()[j]).0 == n by {
                if n == name@ {
                    assert(versions.entries_seq()[i as int].0 == n);
                }
            }
            assert(doc_deps(*doc) =~= Map::new(
                |k: (Seq<char>, Seq<char>)| orig.dom().contains(k),
                |k: (Seq<char>, Seq<char>)|
                    if k.0 == section@ && done.contains(k.1) && vm.dom().contains(k.1) && (
                    orig[k].0 == 0 || orig[k].0 == 1) {
                        (orig[k].0, version_str(vm[k.1]))
                    } else {
                        orig[k]
                    },
            ));
        }
        i = i + 1;
    }
    proof {
        versions.lemma_view_corresponds();
        assert forall|n: Seq<char>| #[trigger] vm.dom().contains(n) implies done.contains(n) by {
            let j = choose|j: int|
                0 <= j < versions.entries_seq().len() && (#[trigger] versions.entries_seq()[j]).0
                    == n;
        }
        assert(doc_deps(*doc) =~= patch_one_section(orig, vm, section@));
    }
    Ok(())
}

/// Applies a computed version map to a manifest's text: sets the named
/// package's own version, rewrites every dependency entry whose name is in
/// the map (keeping its bare-string or inline-table shape), and rerenders
/// the document, preserving all other content. An affected entry of any
/// other shape is a structural error; text that is not valid toml is a parse
/// error.
pub fn patch(text: &str, package_name: &String, versions: &VersionMap) -> (r: Result<
    String,
    Error,
>)
    requires
        versions.wf(),
        versions.map_view().dom().contains(package_name@),
    ensures
        match r {
            Ok(out) => {
                &&& toml_model_of(text@) is Some
                &&& ({
                    let deps = toml_model_of(text@).unwrap().1;
                    &&& forall|k: (Seq<char>, Seq<char>)|
                        #[trigger] deps.dom().contains(k) && deps[k].0 == 2
                            ==> !versions.map_view().dom().contains(k.1)
                    &&& toml_model_of(out@) == Some(
                        (
                            Some(version_str(versions.map_view()[package_name@])),
                            patched_dep_map(deps, versions.map_view()),
                            toml_model_of(text@).unwrap().2,
                        ),
                    )
                })
            },
            Err(Error::ManifestParseError(_)) => toml_model_of(text@) is None,
            Err(Error::ManifestStructuralError(n)) => {
                &&& toml_model_of(text@) is Some
                &&& ({
                    let model = toml_model_of(text@).unwrap();
                    ||| (n@ == package_name@ && model.0 is None)
                    ||| exists|k: (Seq<char>, Seq<char>)|
                        #[trigger] model.1.dom().contains(k) && model.1[k].0 == 2 && k.1 == n@
                            && versions.map_view().dom().contains(n@)
                })
            },
            Err(_) => false,
        },
{
    let mut doc = match parse_doc(text) {
        Ok(d) => d,
        Err(msg) => {
            return Err(Error::ManifestParseError(msg));
        },
    };
    let ghost deps0 = doc_deps(doc);
    let ghost vm = versions.map_view();

    match doc_get_pkg_version(&doc) {
        Some(_) => {},
        None => {
            return Err(Error::ManifestStructuralError(package_name.clone()));
        },
    }

    let own = match versions.get(package_name) {
        Some(v) => v,
        None => {
            proof {
                assert(false);
            }
            return Err(Error::WorkspaceNotFound(package_name.clone()));
        },
    };
    let own_str = version_to_string(own);
    doc_set_pkg_version(&mut doc, own_str.as_str());

    match patch_section(&mut doc, "dependencies", versions) {
        Ok(()) => {},
        Err(e) => {
            return Err(e);
        },
    }
    let ghost deps1 = doc_deps(doc);
    match patch_section(&mut doc, "dev-dependencies", versions) {
        Ok(()) => {},
        Err(e) => {
            proof {
                assert(deps1.dom() =~= deps0.dom());
                assert forall|k: (Seq<char>, Seq<char>)|
                    #[trigger] deps1.dom().contains(k) && deps1[k].0 == 2 implies deps0.dom().contains(
                    k,
                ) && deps0[k].0 == 2 by {}
            }
            return Err(e);
        },
    }
    let ghost deps2 = doc_deps(doc);
    match patch_section(&mut doc, "build-dependencies", versions) {
        Ok(()) => {},
        Err(e) => {
            proof {
                assert(deps1.dom() =~= deps0.dom());
                assert(deps2.dom() =~= deps0.dom());
            }
            return Err(e);
        },
    }

    proof {
        assert(doc_deps(doc) =~= patched_dep_map(deps0, vm)) by {
            assert forall|k: (Seq<char>, Seq<char>)| #[trigger] deps0.dom().contains(k) implies
                is_dep_section(k.0) by {}
        }
        assert forall|k: (Seq<char>, Seq<char>)|
            #[trigger] deps0.dom().contains(k) && deps0[k].0 == 2 implies !vm.dom().contains(
            k.1,
        ) by {
            assert(is_dep_section(k.0));
            if k.0 == "dependencies"@ {
            } else if k.0 == "dev-dependencies"@ {
                assert(deps1.dom().contains(k) && deps1[k].0 == 2);
            } else {
                assert(deps1.dom().contains(k) && deps1[k].0 == 2);
                assert(deps2.dom().contains(k) && deps2[k].0 == 2);
            }
        }
    }
    Ok(doc_to_text(&doc))
}

/// Reads a manifest's own `package.version` string, when the text parses and
/// the field is a string.
pub fn manifest_package_version(text: &str) -> (r: Result<Option<String>, Error>)
    ensures
        match r {
            Ok(v) => {
                &&& toml_model_of(text@) is Some
                &&& match v {
                    Some(s) => toml_model_of(text@).unwrap().0 == Some(s@),
                    None => toml_model_of(text@).unwrap().0 is None,
                }
            },
            Err(Error::ManifestParseError(_)) => toml_model_of(text@) is None,
            Err(_) => false,
        },
{
    match parse_doc(text) {
        Ok(d) => Ok(doc_get_pkg_version(&d)),
        Err(msg) => Err(Error::ManifestParseError(msg)),
    }
}

/// Reads the version requirement of one dependency entry, when the text
/// parses and the entry has a rewritable shape.
pub fn manifest_dep_requirement(text: &str, section: &str, name: &str) -> (r: Result<
    Option<String>,
    Error,
>)
    ensures
        match r {
            Ok(v) => {
                &&& toml_model_of(text@) is Some
                &&& ({
                    let deps = toml_model_of(text@).unwrap().1;
                    let key = (section@, name@);
                    match v {
                        Some(s) => deps.dom().contains(key) && deps[key].0 != 2 && deps[key].1
                            == s@,
                        None => !deps.dom().contains(key) || deps[key].0 == 2,
                    }
                })
            },
            Err(Error::ManifestParseError(_)) => toml_model_of(text@) is None,
            Err(_) => false,
        },
{
    match parse_doc(text) {
        Ok(d) => Ok(doc_get_dep_req(&d, section, name)),
        Err(msg) => Err(Error::ManifestParseError(msg)),
    }
}

} // verus!
