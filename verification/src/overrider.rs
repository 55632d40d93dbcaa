//! Overriding a dependency of a workspace with local sources: the
//! dependencies of the workspace members are grouped by the `[patch]`
//! section that can override them, and the text to append to the manifest
//! is built for the section that holds a given package.

use vstd::prelude::*;
use crate::source::{spec_sanitize, Source};
use crate::text::{compare_chars, chars_of, lex_lt, lemma_lex_lt_asymmetric, lemma_lex_lt_transitive, Order};

verus! {

/// A package, as the metadata of a workspace lists it.
pub struct Package {
    /// Identifier of the package.
    pub id: String,
    /// Name of the package.
    pub name: String,
    /// Text of the source of the package, if it has one.
    pub source: Option<String>,
}

/// Mathematical view of a [`Package`].
pub struct PackageView {
    pub id: Seq<char>,
    pub name: Seq<char>,
    pub source: Option<Seq<char>>,
}

impl View for Package {
    type V = PackageView;

    open spec fn view(&self) -> PackageView {
        PackageView {
            id: self.id@,
            name: self.name@,
            source: match self.source {
                Some(s) => Some(s@),
                None => None,
            },
        }
    }
}

/// A node of the resolved dependency graph: a package and the identifiers
/// of the packages it depends on.
pub struct Node {
    pub id: String,
    pub deps: Vec<String>,
}

/// Mathematical view of a [`Node`].
pub struct NodeView {
    pub id: Seq<char>,
    pub deps: Seq<Seq<char>>,
}

impl View for Node {
    type V = NodeView;

    open spec fn view(&self) -> NodeView {
        NodeView { id: self.id@, deps: self.deps@.map_values(|d: String| d@) }
    }
}

/// What the logic reads of the metadata of a workspace.
pub struct Metadata {
    /// All packages of the workspace and of its dependencies.
    pub packages: Vec<Package>,
    /// The resolved dependency graph, if it was computed.
    pub resolve: Option<Vec<Node>>,
    /// Identifiers of the members of the workspace.
    pub workspace_members: Vec<String>,
}

/// Mathematical view of a [`Metadata`].
pub struct MetadataView {
    pub packages: Seq<PackageView>,
    pub resolve: Option<Seq<NodeView>>,
    pub workspace_members: Seq<Seq<char>>,
}

impl View for Metadata {
    type V = MetadataView;

    open spec fn view(&self) -> MetadataView {
        MetadataView {
            packages: self.packages@.map_values(|p: Package| p@),
            resolve: match self.resolve {
                Some(nodes) => Some(nodes@.map_values(|n: Node| n@)),
                None => None,
            },
            workspace_members: self.workspace_members@.map_values(|s: String| s@),
        }
    }
}

/// `k` is the last index of a package with identifier `id` (a later entry
/// replaces an earlier one with the same identifier).
pub open spec fn is_last_package(packages: Seq<PackageView>, id: Seq<char>, k: int) -> bool {
    &&& 0 <= k < packages.len()
    &&& packages[k].id == id
    &&& forall|j: int| k < j < packages.len() ==> packages[j].id != id
}

/// The package with identifier `id`.
pub open spec fn package_for(packages: Seq<PackageView>, id: Seq<char>) -> Option<PackageView> {
    if exists|k: int| is_last_package(packages, id, k) {
        Some(packages[choose|k: int| is_last_package(packages, id, k)])
    } else {
        None
    }
}

/// `k` is the last index of a node with identifier `id`.
pub open spec fn is_last_node(nodes: Seq<NodeView>, id: Seq<char>, k: int) -> bool {
    &&& 0 <= k < nodes.len()
    &&& nodes[k].id == id
    &&& forall|j: int| k < j < nodes.len() ==> nodes[j].id != id
}

/// The node with identifier `id`.
pub open spec fn node_for(nodes: Seq<NodeView>, id: Seq<char>) -> Option<NodeView> {
    if exists|k: int| is_last_node(nodes, id, k) {
        Some(nodes[choose|k: int| is_last_node(nodes, id, k)])
    } else {
        None
    }
}

/// The dependencies of the workspace member `member` in the resolved graph.
pub open spec fn deps_of_member(m: MetadataView, member: Seq<char>) -> Seq<Seq<char>> {
    match m.resolve {
        Some(nodes) => match node_for(nodes, member) {
            Some(n) => n.deps,
            None => Seq::empty(),
        },
        None => Seq::empty(),
    }
}

/// `id` is a direct dependency of a member of the workspace.
pub open spec fn is_direct_dependency(m: MetadataView, id: Seq<char>) -> bool {
    exists|i: int|
        0 <= i < m.workspace_members.len() && #[trigger] deps_of_member(
            m,
            m.workspace_members[i],
        ).contains(id)
}

/// Some direct dependency is not among the packages.
pub open spec fn has_unknown_dependency(m: MetadataView) -> bool {
    exists|id: Seq<char>|
        is_direct_dependency(m, id) && #[trigger] package_for(m.packages, id) is None
}

/// The `[patch]` section that can override the package `id`, if any.
pub open spec fn section_of(m: MetadataView, id: Seq<char>) -> Option<Seq<char>> {
    match package_for(m.packages, id) {
        Some(p) => match p.source {
            Some(src) => spec_sanitize(src),
            None => None,
        },
        None => None,
    }
}

/// The name of the package `id`.
pub open spec fn name_of(m: MetadataView, id: Seq<char>) -> Seq<char> {
    match package_for(m.packages, id) {
        Some(p) => p.name,
        None => Seq::empty(),
    }
}

/// The package named `name` is a direct dependency that the section
/// `section` can override.
pub open spec fn overrides(m: MetadataView, section: Seq<char>, name: Seq<char>) -> bool {
    exists|id: Seq<char>|
        #![trigger section_of(m, id), name_of(m, id)]
        is_direct_dependency(m, id) && section_of(m, id) == Some(section) && name_of(m, id) == name
}

/// For each `[patch]` section, the names of the direct dependencies that it
/// can override.
pub open spec fn spec_sections(m: MetadataView) -> Map<Seq<char>, Set<Seq<char>>> {
    Map::new(
        |s: Seq<char>| exists|p: Seq<char>| overrides(m, s, p),
        |s: Seq<char>| Set::new(|p: Seq<char>| overrides(m, s, p)),
    )
}

/// Mathematical view of an [`Overrider`].
pub struct OverriderView {
    /// Path of the manifest of the workspace.
    pub manifest: Seq<char>,
    /// For each `[patch]` section, the names of the packages it overrides.
    pub sections: Map<Seq<char>, Set<Seq<char>>>,
}

/// The packages of one `[patch]` section.
struct Section {
    source: String,
    packages: Vec<String>,
}

/// The package `name` stands in the section `source` of `sections`.
spec fn in_section(sections: Seq<Section>, source: Seq<char>, name: Seq<char>) -> bool {
    exists|k: int, j: int|
        0 <= k < sections.len() && 0 <= j < sections[k].packages@.len() && sections[k].source@
            == source && #[trigger] sections[k].packages@[j]@ == name
}

spec fn sections_view(sections: Seq<Section>) -> Map<Seq<char>, Set<Seq<char>>> {
    Map::new(
        |s: Seq<char>| exists|p: Seq<char>| in_section(sections, s, p),
        |s: Seq<char>| Set::new(|p: Seq<char>| in_section(sections, s, p)),
    )
}

/// Collects dependencies and overrides them with local sources.
pub struct Overrider {
    manifest: String,
    sections: Vec<Section>,
}

impl View for Overrider {
    type V = OverriderView;

    closed spec fn view(&self) -> OverriderView {
        OverriderView { manifest: self.manifest@, sections: sections_view(self.sections@) }
    }
}

/// Why an override could not be prepared.
#[derive(Debug)]
pub enum OverrideError {
    /// The metadata holds no resolved dependency graph.
    NoResolveGraph,
    /// A direct dependency is not among the packages of the metadata.
    UnknownPackage,
    /// No section holds the package of that name.
    NotFound(String),
}


/// The package found at the last index with a given identifier is the one
/// that `package_for` names.
proof fn lemma_package_for_last(packages: Seq<PackageView>, id: Seq<char>, k: int)
    requires
        is_last_package(packages, id, k),
    ensures
        package_for(packages, id) == Some(packages[k]),
{
    let k2 = choose|k2: int| is_last_package(packages, id, k2);
    assert(is_last_package(packages, id, k2));
    if k < k2 {
        assert(packages[k2].id != id);
    } else if k2 < k {
        assert(packages[k].id != id);
    }
}

proof fn lemma_node_for_last(nodes: Seq<NodeView>, id: Seq<char>, k: int)
    requires
        is_last_node(nodes, id, k),
    ensures
        node_for(nodes, id) == Some(nodes[k]),
{
    let k2 = choose|k2: int| is_last_node(nodes, id, k2);
    assert(is_last_node(nodes, id, k2));
    if k < k2 {
        assert(nodes[k2].id != id);
    } else if k2 < k {
        assert(nodes[k].id != id);
    }
}

/// The index of the package with identifier `id`.
fn find_package(packages: &Vec<Package>, id: &String) -> (r: Option<usize>)
    ensures
        match r {
            Some(k) => k < packages@.len() && package_for(
                packages@.map_values(|p: Package| p@),
                id@,
            ) == Some(packages@[k as int]@),
            None => package_for(packages@.map_values(|p: Package| p@), id@) is None,
        },
{
    let ghost pv = packages@.map_values(|p: Package| p@);
    let mut i = packages.len();
    while i > 0
        invariant
            i <= packages@.len(),
            pv == packages@.map_values(|p: Package| p@),
            forall|j: int| i <= j < pv.len() ==> pv[j].id != id@,
        decreases i,
    {
        i = i - 1;
        if packages[i].id == *id {
            proof {
                assert(is_last_package(pv, id@, i as int));
                lemma_package_for_last(pv, id@, i as int);
            }
            return Some(i);
        }
    }
    assert(!exists|k: int| is_last_package(pv, id@, k));
    None
}

/// The index of the node with identifier `id`.
fn find_node(nodes: &Vec<Node>, id: &String) -> (r: Option<usize>)
    ensures
        match r {
            Some(k) => k < nodes@.len() && node_for(nodes@.map_values(|n: Node| n@), id@) == Some(
                nodes@[k as int]@,
            ),
            None => node_for(nodes@.map_values(|n: Node| n@), id@) is None,
        },
{
    let ghost nv = nodes@.map_values(|n: Node| n@);
    let mut i = nodes.len();
    while i > 0
        invariant
            i <= nodes@.len(),
            nv == nodes@.map_values(|n: Node| n@),
            forall|j: int| i <= j < nv.len() ==> nv[j].id != id@,
        decreases i,
    {
        i = i - 1;
        if nodes[i].id == *id {
            proof {
                assert(is_last_node(nv, id@, i as int));
                lemma_node_for_last(nv, id@, i as int);
            }
            return Some(i);
        }
    }
    assert(!exists|k: int| is_last_node(nv, id@, k));
    None
}

/// Whether `name` is among `names`.
fn contains_name(names: &Vec<String>, name: &String) -> (r: bool)
    ensures
        r == name_in(names@, name@),
{
    let mut j: usize = 0;
    while j < names.len()
        invariant
            j <= names@.len(),
            forall|t: int| 0 <= t < j ==> names@[t]@ != name@,
        decreases names@.len() - j,
    {
        if names[j] == *name {
            return true;
        }
        j = j + 1;
    }
    false
}

/// Adds the package `name` to the section `source`.
fn add_package(sections: &mut Vec<Section>, source: String, name: String)
    ensures
        forall|s: Seq<char>, p: Seq<char>|
            #[trigger] in_section(final(sections)@, s, p) <==> in_section(old(sections)@, s, p) || (
            s == source@ && p == name@),
{
    let mut k: usize = 0;
    while k < sections.len()
        invariant
            k <= sections@.len(),
            sections@ == old(sections)@,
            forall|t: int| 0 <= t < k ==> sections@[t].source@ != source@,
        decreases sections@.len() - k,
    {
        if sections[k].source == source {
            if !contains_name(&sections[k].packages, &name) {
                let mut section = sections.remove(k);
                let ghost before = section;
                section.packages.push(name);
                sections.insert(k, section);
                proof {
                    assert(sections@ =~= old(sections)@.update(k as int, section));
                    assert forall|s: Seq<char>, p: Seq<char>|
                        #[trigger] in_section(sections@, s, p) <==> in_section(old(sections)@, s, p)
                            || (s == source@ && p == name@) by {
                        if in_section(sections@, s, p) {
                            let (k2, j2) = choose|k2: int, j2: int|
                                0 <= k2 < sections@.len() && 0 <= j2
                                    < sections@[k2].packages@.len() && sections@[k2].source@ == s
                                    && #[trigger] sections@[k2].packages@[j2]@ == p;
                            if k2 == k && j2 < before.packages@.len() {
                                assert(old(sections)@[k2].packages@[j2]@ == p);
                            } else if k2 != k {
                                assert(old(sections)@[k2].packages@[j2]@ == p);
                            }
                        }
                        if in_section(old(sections)@, s, p) {
                            let (k2, j2) = choose|k2: int, j2: int|
                                0 <= k2 < old(sections)@.len() && 0 <= j2
                                    < old(sections)@[k2].packages@.len() && old(
                                    sections,
                                )@[k2].source@ == s && #[trigger] old(
                                    sections,
                                )@[k2].packages@[j2]@ == p;
                            assert(sections@[k2].packages@[j2]@ == p);
                        }
                        if s == source@ && p == name@ {
                            let j3 = section.packages@.len() - 1;
                            assert(sections@[k as int].packages@[j3]@ == p);
                        }
                    }
                }
            } else {
                proof {
                    assert forall|s: Seq<char>, p: Seq<char>|
                        #[trigger] in_section(sections@, s, p) <==> in_section(old(sections)@, s, p)
                            || (s == source@ && p == name@) by {
                        if s == source@ && p == name@ {
                            let j3 = choose|j3: int|
                                0 <= j3 < sections@[k as int].packages@.len()
                                    && sections@[k as int].packages@[j3]@ == name@;
                            assert(sections@[k as int].packages@[j3]@ == p);
                        }
                    }
                }
            }
            return;
        }
        k = k + 1;
    }
    let mut packages: Vec<String> = Vec::new();
    packages.push(name);
    let section = Section { source, packages };
    sections.push(section);
    proof {
        assert forall|s: Seq<char>, p: Seq<char>|
            #[trigger] in_section(sections@, s, p) <==> in_section(old(sections)@, s, p) || (s
                == source@ && p == name@) by {
            if in_section(sections@, s, p) {
                let (k2, j2) = choose|k2: int, j2: int|
                    0 <= k2 < sections@.len() && 0 <= j2 < sections@[k2].packages@.len()
                        && sections@[k2].source@ == s && #[trigger] sections@[k2].packages@[j2]@
                        == p;
                if k2 < old(sections)@.len() {
                    assert(old(sections)@[k2].packages@[j2]@ == p);
                }
            }
            if in_section(old(sections)@, s, p) {
                let (k2, j2) = choose|k2: int, j2: int|
                    0 <= k2 < old(sections)@.len() && 0 <= j2 < old(sections)@[k2].packages@.len()
                        && old(sections)@[k2].source@ == s && #[trigger] old(
                        sections,
                    )@[k2].packages@[j2]@ == p;
                assert(sections@[k2].packages@[j2]@ == p);
            }
            if s == source@ && p == name@ {
                assert(sections@[old(sections)@.len() as int].packages@[0]@ == p);
            }
        }
    }
}


/// The dependency `id` is among those visited once the first `i` members,
/// and the first `j` dependencies of member `i`, have been visited.
spec fn visited(m: MetadataView, i: int, j: int, id: Seq<char>) -> bool {
    ||| exists|i2: int|
        0 <= i2 < i && #[trigger] deps_of_member(m, m.workspace_members[i2]).contains(id)
    ||| 0 <= i < m.workspace_members.len() && deps_of_member(m, m.workspace_members[i]).take(
        j,
    ).contains(id)
}

/// The package `name` is a visited dependency that the section `section`
/// can override.
spec fn visited_overrides(m: MetadataView, i: int, j: int, section: Seq<char>, name: Seq<char>) -> bool {
    exists|id: Seq<char>|
        #![trigger visited(m, i, j, id)]
        visited(m, i, j, id) && section_of(m, id) == Some(section) && name_of(m, id) == name
}

/// Visiting one more dependency of member `i`.
proof fn lemma_visit_dependency(m: MetadataView, i: int, j: int)
    requires
        0 <= i < m.workspace_members.len(),
        0 <= j < deps_of_member(m, m.workspace_members[i]).len(),
    ensures
        forall|id: Seq<char>|
            #[trigger] visited(m, i, j + 1, id) <==> visited(m, i, j, id) || id == deps_of_member(
                m,
                m.workspace_members[i],
            )[j],
        forall|s: Seq<char>, p: Seq<char>|
            #[trigger] visited_overrides(m, i, j + 1, s, p) <==> visited_overrides(m, i, j, s, p) || (
            section_of(m, deps_of_member(m, m.workspace_members[i])[j]) == Some(s) && name_of(
                m,
                deps_of_member(m, m.workspace_members[i])[j],
            ) == p),
{
    let deps = deps_of_member(m, m.workspace_members[i]);
    assert(deps.take(j + 1) =~= deps.take(j).push(deps[j]));
    assert forall|id: Seq<char>|
        #[trigger] visited(m, i, j + 1, id) <==> visited(m, i, j, id) || id == deps[j] by {
        if id == deps[j] {
            assert(deps.take(j + 1)[j] == id);
        }
        if deps.take(j).contains(id) {
            let t = choose|t: int| 0 <= t < deps.take(j).len() && deps.take(j)[t] == id;
            assert(deps.take(j + 1)[t] == id);
        }
    }
    assert forall|s: Seq<char>, p: Seq<char>|
        #[trigger] visited_overrides(m, i, j + 1, s, p) <==> visited_overrides(m, i, j, s, p) || (
        section_of(m, deps[j]) == Some(s) && name_of(m, deps[j]) == p) by {
        if visited_overrides(m, i, j + 1, s, p) {
            let id = choose|id: Seq<char>|
                #![trigger visited(m, i, j + 1, id)]
                visited(m, i, j + 1, id) && section_of(m, id) == Some(s) && name_of(m, id) == p;
            assert(visited(m, i, j, id) || id == deps[j]);
        }
        if visited_overrides(m, i, j, s, p) {
            let id = choose|id: Seq<char>|
                #![trigger visited(m, i, j, id)]
                visited(m, i, j, id) && section_of(m, id) == Some(s) && name_of(m, id) == p;
            assert(visited(m, i, j + 1, id));
        }
        if section_of(m, deps[j]) == Some(s) && name_of(m, deps[j]) == p {
            assert(visited(m, i, j + 1, deps[j]));
        }
    }
}

/// Having visited all dependencies of member `i` is having visited the
/// first `i + 1` members.
proof fn lemma_visit_member(m: MetadataView, i: int)
    requires
        0 <= i < m.workspace_members.len(),
    ensures
        forall|id: Seq<char>|
            #[trigger] visited(m, i + 1, 0, id) <==> visited(
                m,
                i,
                deps_of_member(m, m.workspace_members[i]).len() as int,
                id,
            ),
        forall|s: Seq<char>, p: Seq<char>|
            #[trigger] visited_overrides(m, i + 1, 0, s, p) <==> visited_overrides(
                m,
                i,
                deps_of_member(m, m.workspace_members[i]).len() as int,
                s,
                p,
            ),
{
    let deps = deps_of_member(m, m.workspace_members[i]);
    let n = deps.len() as int;
    assert(deps.take(n) =~= deps);
    assert forall|id: Seq<char>| #[trigger] visited(m, i + 1, 0, id) <==> visited(m, i, n, id) by {
        if visited(m, i + 1, 0, id) {
            let i2 = choose|i2: int|
                0 <= i2 < i + 1 && #[trigger] deps_of_member(m, m.workspace_members[i2]).contains(
                    id,
                );
            if i2 < i {
                assert(visited(m, i, n, id));
            }
        }
        if visited(m, i, n, id) {
            if deps.take(n).contains(id) {
                assert(deps_of_member(m, m.workspace_members[i]).contains(id));
            }
        }
    }
    assert forall|s: Seq<char>, p: Seq<char>|
        #[trigger] visited_overrides(m, i + 1, 0, s, p) <==> visited_overrides(m, i, n, s, p) by {
        if visited_overrides(m, i + 1, 0, s, p) {
            let id = choose|id: Seq<char>|
                #![trigger visited(m, i + 1, 0, id)]
                visited(m, i + 1, 0, id) && section_of(m, id) == Some(s) && name_of(m, id) == p;
            assert(visited(m, i, n, id));
        }
        if visited_overrides(m, i, n, s, p) {
            let id = choose|id: Seq<char>|
                #![trigger visited(m, i, n, id)]
                visited(m, i, n, id) && section_of(m, id) == Some(s) && name_of(m, id) == p;
            assert(visited(m, i + 1, 0, id));
        }
    }
}

/// Once all members are visited, the visited dependencies are the direct
/// dependencies.
proof fn lemma_visited_all(m: MetadataView)
    ensures
        forall|id: Seq<char>|
            #[trigger] visited(m, m.workspace_members.len() as int, 0, id) <==> is_direct_dependency(m, id),
        forall|s: Seq<char>, p: Seq<char>|
            #[trigger] visited_overrides(m, m.workspace_members.len() as int, 0, s, p) <==> overrides(m, s, p),
{
    let n = m.workspace_members.len() as int;
    assert forall|id: Seq<char>| #[trigger] visited(m, n, 0, id) <==> is_direct_dependency(m, id) by {
        if is_direct_dependency(m, id) {
            let i = choose|i: int|
                0 <= i < m.workspace_members.len() && #[trigger] deps_of_member(
                    m,
                    m.workspace_members[i],
                ).contains(id);
            assert(visited(m, n, 0, id));
        }
    }
    assert forall|s: Seq<char>, p: Seq<char>|
        #[trigger] visited_overrides(m, n, 0, s, p) <==> overrides(m, s, p) by {
        if visited_overrides(m, n, 0, s, p) {
            let id = choose|id: Seq<char>|
                #![trigger visited(m, n, 0, id)]
                visited(m, n, 0, id) && section_of(m, id) == Some(s) && name_of(m, id) == p;
            assert(is_direct_dependency(m, id));
        }
        if overrides(m, s, p) {
            let id = choose|id: Seq<char>|
                #![trigger section_of(m, id), name_of(m, id)]
                is_direct_dependency(m, id) && section_of(m, id) == Some(s) && name_of(m, id) == p;
            assert(visited(m, n, 0, id));
        }
    }
}


/// The header of the `[patch]` table for `section`.
pub open spec fn spec_patch_header(section: Seq<char>) -> Seq<char> {
    if section == "crates-io"@ {
        "[patch.crates.io]"@
    } else {
        "[patch.\""@ + section + "\"]"@
    }
}

/// The text appended to the manifest to override `package` in `section`
/// with the sources at `path`.
pub open spec fn spec_patch_text(section: Seq<char>, package: Seq<char>, path: Seq<char>) -> Seq<char> {
    "\n"@ + spec_patch_header(section) + "\n"@ + package + " = { path = \""@ + path + "\" }\n"@
}

/// `section` holds `package`, and comes first in lexicographic order among
/// the sections that hold it.
pub open spec fn is_first_section(
    sections: Map<Seq<char>, Set<Seq<char>>>,
    package: Seq<char>,
    section: Seq<char>,
) -> bool {
    &&& sections.contains_key(section)
    &&& sections[section].contains(package)
    &&& forall|t: Seq<char>|
        #![trigger sections[t]]
        sections.contains_key(t) && sections[t].contains(package) && t != section ==> lex_lt(
            section,
            t,
        )
}

/// Every section other than `crates-io` stands quoted in its header,
/// whatever it holds; `crates-io` gives `[patch.crates.io]`. The text that
/// overrides a package is that header between newlines, then the package
/// bound to the path.
pub proof fn lemma_patch_header_quotes_section(section: Seq<char>, package: Seq<char>, path: Seq<char>)
    ensures
        section != "crates-io"@ ==> spec_patch_header(section) == seq!['[', 'p', 'a', 't', 'c', 'h', '.', '"'] + section + seq!['"', ']'],
        section == "crates-io"@ ==> spec_patch_header(section) == seq!['[', 'p', 'a', 't', 'c', 'h', '.', 'c', 'r', 'a', 't', 'e', 's', '.', 'i', 'o', ']'],
        spec_patch_text(section, package, path) == seq!['\n'] + spec_patch_header(section) + seq!['\n'] + package
            + seq![' ', '=', ' ', '{', ' ', 'p', 'a', 't', 'h', ' ', '=', ' ', '"'] + path
            + seq!['"', ' ', '}', '\n'],
{
    reveal_strlit("[patch.\"");
    reveal_strlit("\"]");
    reveal_strlit("[patch.crates.io]");
    reveal_strlit("\n");
    reveal_strlit(" = { path = \"");
    reveal_strlit("\" }\n");
    assert("[patch.\""@ =~= seq!['[', 'p', 'a', 't', 'c', 'h', '.', '"']);
    assert("\"]"@ =~= seq!['"', ']']);
    assert("[patch.crates.io]"@ =~= seq!['[', 'p', 'a', 't', 'c', 'h', '.', 'c', 'r', 'a', 't', 'e', 's', '.', 'i', 'o', ']']);
    assert("\n"@ =~= seq!['\n']);
    assert(" = { path = \""@ =~= seq![' ', '=', ' ', '{', ' ', 'p', 'a', 't', 'h', ' ', '=', ' ', '"']);
    assert("\" }\n"@ =~= seq!['"', ' ', '}', '\n']);
}

/// The header of the `[patch]` table for `section`.
pub fn patch_header(section: &String) -> (r: String)
    ensures
        r@ == spec_patch_header(section@),
{
    if *section == String::from_str("crates-io") {
        String::from_str("[patch.crates.io]")
    } else {
        let mut header = String::from_str("[patch.\"");
        header.append(section.as_str());
        header.append("\"]");
        header
    }
}

impl OverrideError {
    /// The message that reports the error.
    pub fn message(&self) -> (r: String)
        ensures
            r@ == match self {
                OverrideError::NoResolveGraph => "No resolve graph"@,
                OverrideError::UnknownPackage => "Unknown package"@,
                OverrideError::NotFound(package) => "Not found: "@ + package@,
            },
    {
        match self {
            OverrideError::NoResolveGraph => String::from_str("No resolve graph"),
            OverrideError::UnknownPackage => String::from_str("Unknown package"),
            OverrideError::NotFound(package) => {
                let mut message = String::from_str("Not found: ");
                message.append(package.as_str());
                message
            },
        }
    }
}

/// `name` is among `names`.
spec fn name_in(names: Seq<String>, name: Seq<char>) -> bool {
    exists|j: int| 0 <= j < names.len() && #[trigger] names[j]@ == name
}

/// After scanning the first `k` sections for `name`, `best` is the first
/// of them (in lexicographic order) that holds `name`, if any does.
spec fn scan_invariant(secs: Seq<Section>, name: Seq<char>, best: Option<usize>, k: int) -> bool {
    match best {
        Some(b) => {
            &&& b < k
            &&& name_in(secs[b as int].packages@, name)
            &&& forall|t: int|
                #![trigger name_in(secs[t].packages@, name)]
                0 <= t < k && name_in(secs[t].packages@, name) ==> secs[t].source@ == secs[b as int].source@
                    || lex_lt(secs[b as int].source@, secs[t].source@)
        },
        None => forall|t: int|
            #![trigger name_in(secs[t].packages@, name)]
            0 <= t < k ==> !name_in(secs[t].packages@, name),
    }
}

impl Overrider {
    /// Path of the manifest of the workspace.
    pub fn manifest(&self) -> (r: &String)
        ensures
            r@ == self@.manifest,
    {
        &self.manifest
    }

    /// Override `package` with the local sources at `path`: the text to
    /// append to the manifest, taken from the first section (in
    /// lexicographic order) that holds the package.
    pub fn override_package(&self, package: &str, path: &str) -> (r: Result<String, OverrideError>)
        ensures
            r is Ok <==> exists|s: Seq<char>|
                #![trigger self@.sections[s]]
                self@.sections.contains_key(s) && self@.sections[s].contains(package@),
            r matches Ok(text) ==> exists|s: Seq<char>|
                is_first_section(self@.sections, package@, s) && text@ == spec_patch_text(
                    s,
                    package@,
                    path@,
                ),
            r matches Err(e) ==> (e matches OverrideError::NotFound(name) && name@ == package@),
    {
        let name = String::from_str(package);
        let ghost secs = self.sections@;
        let mut best: Option<usize> = None;
        let mut k: usize = 0;
        while k < self.sections.len()
            invariant
                secs == self.sections@,
                name@ == package@,
                k <= secs.len(),
                scan_invariant(secs, name@, best, k as int),
            decreases secs.len() - k,
        {
            let found = contains_name(&self.sections[k].packages, &name);
            if found {
                match best {
                    None => {
                        best = Some(k);
                    },
                    Some(b) => {
                        let candidate = chars_of(self.sections[k].source.as_str());
                        let current = chars_of(self.sections[b].source.as_str());
                        assert(candidate@ == secs[k as int].source@);
                        assert(current@ == secs[b as int].source@);
                        match compare_chars(&candidate, &current) {
                            Order::Less => {
                                proof {
                                    assert forall|t: int|
                                        #![trigger name_in(secs[t].packages@, name@)]
                                        0 <= t < k + 1 && name_in(secs[t].packages@, name@)
                                            implies secs[t].source@ == secs[k as int].source@ || lex_lt(secs[k as int].source@, secs[t].source@) by {
                                        if t < k && secs[t].source@ != secs[b as int].source@ {
                                            lemma_lex_lt_transitive(secs[k as int].source@, secs[b as int].source@, secs[t].source@);
                                        }
                                    }
                                }
                                best = Some(k);
                            },
                            Order::Equal => {
                                assert(secs[k as int].source@ == secs[b as int].source@);
                            },
                            Order::Greater => {
                                assert(lex_lt(secs[b as int].source@, secs[k as int].source@));
                            },
                        }
                    },
                }
            }
            k = k + 1;
        }
        match best {
            None => {
                proof {
                    assert forall|s: Seq<char>| #[trigger] self@.sections.contains_key(s)
                        implies !self@.sections[s].contains(package@) by {
                        if self@.sections[s].contains(package@) {
                            assert(in_section(secs, s, package@));
                            let (k2, j2) = choose|k2: int, j2: int|
                                0 <= k2 < secs.len() && 0 <= j2 < secs[k2].packages@.len()
                                    && secs[k2].source@ == s && #[trigger] secs[k2].packages@[j2]@ == package@;
                            assert(name_in(secs[k2].packages@, name@));
                        }
                    }
                }
                Err(OverrideError::NotFound(name))
            },
            Some(b) => {
                let section = &self.sections[b].source;
                let mut text = String::from_str("\n");
                text.append(patch_header(section).as_str());
                text.append("\n");
                text.append(package);
                text.append(" = { path = \"");
                text.append(path);
                text.append("\" }\n");
                proof {
                    let s = secs[b as int].source@;
                    let j = choose|j: int| 0 <= j < secs[b as int].packages@.len() && #[trigger] secs[b as int].packages@[j]@ == name@;
                    assert(secs[b as int].packages@[j]@ == package@);
                    assert(in_section(secs, s, package@));
                    assert(self@.sections.contains_key(s));
                    assert forall|t: Seq<char>|
                        #![trigger self@.sections[t]]
                        self@.sections.contains_key(t) && self@.sections[t].contains(package@) && t != s
                            implies lex_lt(s, t) by {
                        assert(in_section(secs, t, package@));
                        let (k2, j2) = choose|k2: int, j2: int|
                            0 <= k2 < secs.len() && 0 <= j2 < secs[k2].packages@.len()
                                && secs[k2].source@ == t && #[trigger] secs[k2].packages@[j2]@ == package@;
                        assert(name_in(secs[k2].packages@, name@));
                    }
                    assert(is_first_section(self@.sections, package@, s));
                    assert(text@ =~= spec_patch_text(s, package@, path@));
                }
                Ok(text)
            },
        }
    }

    /// Create a new overrider for the project whose manifest is at
    /// `manifest`, from the metadata of its workspace.
    pub fn new(manifest: String, metadata: &Metadata) -> (r: Result<Overrider, OverrideError>)
        ensures
            metadata@.resolve is None ==> r matches Err(OverrideError::NoResolveGraph),
            metadata@.resolve is Some && has_unknown_dependency(metadata@) ==> r matches Err(
                OverrideError::UnknownPackage,
            ),
            metadata@.resolve is Some && !has_unknown_dependency(metadata@) ==> (r matches Ok(o)
                && o@ == (OverriderView { manifest: manifest@, sections: spec_sections(metadata@) })),
    {
        let ghost m = metadata@;
        let nodes = match &metadata.resolve {
            Some(nodes) => nodes,
            None => {
                return Err(OverrideError::NoResolveGraph);
            },
        };
        let ghost nv = nodes@.map_values(|n: Node| n@);
        let ghost pv = metadata.packages@.map_values(|p: Package| p@);
        assert(m.resolve == Some(nv));
        assert(m.packages == pv);
        let members = &metadata.workspace_members;
        let mut sections: Vec<Section> = Vec::new();
        let mut i: usize = 0;
        while i < members.len()
            invariant
                m == metadata@,
                m.resolve == Some(nv),
                nv == nodes@.map_values(|n: Node| n@),
                m.packages == metadata.packages@.map_values(|p: Package| p@),
                members == &metadata.workspace_members,
                i <= members@.len(),
                forall|id: Seq<char>| #[trigger] visited(m, i as int, 0, id) ==> package_for(m.packages, id) is Some,
                forall|s: Seq<char>, p: Seq<char>|
                    #[trigger] in_section(sections@, s, p) <==> visited_overrides(m, i as int, 0, s, p),
            decreases members@.len() - i,
        {
            assert(m.workspace_members[i as int] == members@[i as int]@);
            let ghost deps_view = deps_of_member(m, m.workspace_members[i as int]);
            match find_node(nodes, &members[i]) {
                Some(n) => {
                    let deps = &nodes[n].deps;
                    assert(deps_view == deps@.map_values(|d: String| d@));
                    let mut j: usize = 0;
                    while j < deps.len()
                        invariant
                            m == metadata@,
                            m.packages == metadata.packages@.map_values(|p: Package| p@),
                            i < m.workspace_members.len(),
                            deps_view == deps_of_member(m, m.workspace_members[i as int]),
                            deps_view == deps@.map_values(|d: String| d@),
                            j <= deps@.len(),
                            forall|id: Seq<char>| #[trigger] visited(m, i as int, j as int, id) ==> package_for(m.packages, id) is Some,
                            forall|s: Seq<char>, p: Seq<char>|
                                #[trigger] in_section(sections@, s, p) <==> visited_overrides(m, i as int, j as int, s, p),
                        decreases deps@.len() - j,
                    {
                        proof {
                            lemma_visit_dependency(m, i as int, j as int);
                        }
                        let d = &deps[j];
                        assert(deps_view[j as int] == d@);
                        match find_package(&metadata.packages, d) {
                            None => {
                                assert(deps_of_member(m, m.workspace_members[i as int]).contains(d@));
                                assert(is_direct_dependency(m, d@));
                                assert(package_for(m.packages, d@) is None);
                                return Err(OverrideError::UnknownPackage);
                            },
                            Some(k) => {
                                let package = &metadata.packages[k];
                                match &package.source {
                                    Some(text) => {
                                        match Source(text.as_str()).sanitize() {
                                            Some(section) => {
                                                add_package(&mut sections, section, package.name.clone());
                                            },
                                            None => {},
                                        }
                                    },
                                    None => {},
                                }
                            },
                        }
                        j = j + 1;
                    }
                },
                None => {
                    assert(deps_view =~= Seq::<Seq<char>>::empty());
                },
            }
            proof {
                lemma_visit_member(m, i as int);
            }
            i = i + 1;
        }
        proof {
            lemma_visited_all(m);
            assert forall|id: Seq<char>| #[trigger] is_direct_dependency(m, id) implies package_for(m.packages, id) is Some by {
                assert(visited(m, i as int, 0, id));
            }
            let sv = sections_view(sections@);
            let spec = spec_sections(m);
            assert forall|s: Seq<char>| #[trigger] sv.contains_key(s) <==> spec.contains_key(s) by {
                if sv.contains_key(s) {
                    let p = choose|p: Seq<char>| in_section(sections@, s, p);
                    assert(visited_overrides(m, i as int, 0, s, p));
                    assert(overrides(m, s, p));
                }
                if spec.contains_key(s) {
                    let p = choose|p: Seq<char>| overrides(m, s, p);
                    assert(visited_overrides(m, i as int, 0, s, p));
                    assert(in_section(sections@, s, p));
                }
            }
            assert forall|s: Seq<char>| #[trigger] sv.contains_key(s) implies sv[s] =~= spec[s] by {
                assert forall|p: Seq<char>| sv[s].contains(p) <==> spec[s].contains(p) by {
                    assert(in_section(sections@, s, p) <==> visited_overrides(m, i as int, 0, s, p));
                }
            }
            assert(sv =~= spec);
        }
        Ok(Overrider { manifest, sections })
    }
}


/// A package can be overridden exactly when it is a direct dependency of a
/// member of the workspace and comes from a registry or a git repository.
pub proof fn lemma_overridable_iff_direct_dependency(m: MetadataView, name: Seq<char>)
    ensures
        (exists|s: Seq<char>|
            #![trigger spec_sections(m)[s]]
            spec_sections(m).contains_key(s) && spec_sections(m)[s].contains(name)) <==> (exists|
            id: Seq<char>,
        |
            #![trigger section_of(m, id), name_of(m, id)]
            is_direct_dependency(m, id) && section_of(m, id) is Some && name_of(m, id) == name),
{
    if exists|s: Seq<char>|
        #![trigger spec_sections(m)[s]]
        spec_sections(m).contains_key(s) && spec_sections(m)[s].contains(name) {
        let s = choose|s: Seq<char>|
            #![trigger spec_sections(m)[s]]
            spec_sections(m).contains_key(s) && spec_sections(m)[s].contains(name);
        assert(overrides(m, s, name));
        let id = choose|id: Seq<char>|
            #![trigger section_of(m, id), name_of(m, id)]
            is_direct_dependency(m, id) && section_of(m, id) == Some(s) && name_of(m, id) == name;
        assert(section_of(m, id) is Some);
    }
    if exists|id: Seq<char>|
        #![trigger section_of(m, id), name_of(m, id)]
        is_direct_dependency(m, id) && section_of(m, id) is Some && name_of(m, id) == name {
        let id = choose|id: Seq<char>|
            #![trigger section_of(m, id), name_of(m, id)]
            is_direct_dependency(m, id) && section_of(m, id) is Some && name_of(m, id) == name;
        let s = section_of(m, id)->0;
        assert(overrides(m, s, name));
        assert(spec_sections(m).contains_key(s));
        assert(spec_sections(m)[s].contains(name));
    }
}

/// The section that overrides a package is well defined: two sections that
/// both come first for it are the same.
pub proof fn lemma_first_section_unique(
    sections: Map<Seq<char>, Set<Seq<char>>>,
    package: Seq<char>,
    s1: Seq<char>,
    s2: Seq<char>,
)
    requires
        is_first_section(sections, package, s1),
        is_first_section(sections, package, s2),
    ensures
        s1 == s2,
{
    if s1 != s2 {
        assert(lex_lt(s1, s2));
        assert(lex_lt(s2, s1));
        lemma_lex_lt_asymmetric(s1, s2);
    }
}

} // verus!
