//! The package-index catalog: package records read from a parsed index
//! document, and the per-component package counts derived from them.

use crate::command::{PisiError, PisiErrorView};
use crate::text::{
    lemma_lex_connect, lemma_lex_irrefl, lemma_lex_trans, lex_lt, spec_parse_u32, spec_parse_u64,
    parse_u32, parse_u64, str_eq, str_lt,
};
use crate::xml::{
    spec_attr, spec_attr_or_empty, spec_find_tag, spec_subtree_end, spec_text_of, parse_document,
    parsed_document, XmlDoc, XmlNodeView,
};
use vstd::prelude::*;

verus! {

/// One version-history step of a package, in document order.
#[derive(Debug, Clone)]
pub struct PackageHistory {
    pub version: String,
    pub release: u32,
    pub date: String,
}

pub ghost struct PackageHistoryView {
    pub version: Seq<char>,
    pub release: u32,
    pub date: Seq<char>,
}

impl View for PackageHistory {
    type V = PackageHistoryView;

    open spec fn view(&self) -> PackageHistoryView {
        PackageHistoryView { version: self.version@, release: self.release, date: self.date@ }
    }
}

impl DeepView for PackageHistory {
    type V = PackageHistoryView;

    open spec fn deep_view(&self) -> PackageHistoryView {
        self.view()
    }
}

/// One dependency of a package: the depended-on package's name and a
/// version constraint, empty meaning any version.
#[derive(Debug, Clone)]
pub struct Dependency {
    pub name: String,
    pub version: String,
}

pub ghost struct DependencyView {
    pub name: Seq<char>,
    pub version: Seq<char>,
}

impl View for Dependency {
    type V = DependencyView;

    open spec fn view(&self) -> DependencyView {
        DependencyView { name: self.name@, version: self.version@ }
    }
}

impl DeepView for Dependency {
    type V = DependencyView;

    open spec fn deep_view(&self) -> DependencyView {
        self.view()
    }
}

/// One package record of the catalog, as one `Package` element yields it.
#[derive(Debug, Clone)]
pub struct PackageInfo {
    pub name: String,
    pub summary: String,
    pub description: String,
    pub version: String,
    pub license: String,
    pub part_of: String,
    pub isa: String,
    pub package_size: u64,
    pub installed_size: u64,
    pub history: Vec<PackageHistory>,
    pub dependencies: Vec<Dependency>,
}

pub ghost struct PackageInfoView {
    pub name: Seq<char>,
    pub summary: Seq<char>,
    pub description: Seq<char>,
    pub version: Seq<char>,
    pub license: Seq<char>,
    pub part_of: Seq<char>,
    pub isa: Seq<char>,
    pub package_size: u64,
    pub installed_size: u64,
    pub history: Seq<PackageHistoryView>,
    pub dependencies: Seq<DependencyView>,
}

impl View for PackageInfo {
    type V = PackageInfoView;

    open spec fn view(&self) -> PackageInfoView {
        PackageInfoView {
            name: self.name@,
            summary: self.summary@,
            description: self.description@,
            version: self.version@,
            license: self.license@,
            part_of: self.part_of@,
            isa: self.isa@,
            package_size: self.package_size,
            installed_size: self.installed_size,
            history: self.history.deep_view(),
            dependencies: self.dependencies.deep_view(),
        }
    }
}

impl DeepView for PackageInfo {
    type V = PackageInfoView;

    open spec fn deep_view(&self) -> PackageInfoView {
        self.view()
    }
}

/// One per-component bucket: a component name (possibly empty) and how
/// many catalog packages declare it as their `partOf`.
#[derive(Debug, Clone)]
pub struct Component {
    pub name: String,
    pub package_count: usize,
}

pub ghost struct ComponentView {
    pub name: Seq<char>,
    pub package_count: int,
}

impl View for Component {
    type V = ComponentView;

    open spec fn view(&self) -> ComponentView {
        ComponentView { name: self.name@, package_count: self.package_count as int }
    }
}

impl DeepView for Component {
    type V = ComponentView;

    open spec fn deep_view(&self) -> ComponentView {
        self.view()
    }
}

/// A numeric size attribute: its parsed value, or zero when the attribute
/// is absent or unparsable.
pub open spec fn spec_size_attr(attrs: Seq<(Seq<char>, Seq<char>)>, name: Seq<char>) -> u64 {
    match spec_attr(attrs, name) {
        Some(s) => match spec_parse_u64(s) {
            Some(v) => v,
            None => 0u64,
        },
        None => 0u64,
    }
}

/// One history entry read from an `Update` element: `version` and `date`
/// attributes defaulting to empty, `release` a positive integer, falling
/// back to 1 when the attribute is absent, unparsable, or not positive.
pub open spec fn spec_history_entry(n: XmlNodeView) -> PackageHistoryView {
    PackageHistoryView {
        version: spec_attr_or_empty(n.attrs, "version"@),
        release: match spec_attr(n.attrs, "release"@) {
            Some(s) => match spec_parse_u32(s) {
                Some(v) => if v >= 1 {
                    v
                } else {
                    1u32
                },
                None => 1u32,
            },
            None => 1u32,
        },
        date: spec_attr_or_empty(n.attrs, "date"@),
    }
}

/// The history entries contributed by indices `j .. end`: one entry per
/// node tagged `History`, read from the first `Update` element in that
/// container's subtree; a container without one contributes nothing.
pub open spec fn spec_history_scan(ns: Seq<XmlNodeView>, j: int, end: int) -> Seq<
    PackageHistoryView,
>
    decreases end - j,
{
    if j >= end {
        Seq::empty()
    } else {
        let rest = spec_history_scan(ns, j + 1, end);
        if 0 <= j < ns.len() && ns[j].tag == "History"@ {
            match spec_find_tag(ns, j, spec_subtree_end(ns, j, j + 1), "Update"@) {
                Some(u) => seq![spec_history_entry(ns[u])] + rest,
                None => rest,
            }
        } else {
            rest
        }
    }
}

/// One dependency read from a `Dependency` element: the element's text as
/// the name and its `version` attribute, both defaulting to empty.
pub open spec fn spec_dependency(n: XmlNodeView) -> DependencyView {
    DependencyView { name: n.text, version: spec_attr_or_empty(n.attrs, "version"@) }
}

/// The dependencies contributed by indices `d .. end` of one
/// `Dependencies` container: one record per node tagged `Dependency`.
pub open spec fn spec_dep_items(ns: Seq<XmlNodeView>, d: int, end: int) -> Seq<DependencyView>
    decreases end - d,
{
    if d >= end {
        Seq::empty()
    } else {
        let rest = spec_dep_items(ns, d + 1, end);
        if 0 <= d < ns.len() && ns[d].tag == "Dependency"@ {
            seq![spec_dependency(ns[d])] + rest
        } else {
            rest
        }
    }
}

/// The dependencies contributed by indices `j .. end`: for each node
/// tagged `Dependencies`, every `Dependency` element of its subtree.
pub open spec fn spec_deps_scan(ns: Seq<XmlNodeView>, j: int, end: int) -> Seq<DependencyView>
    decreases end - j,
{
    if j >= end {
        Seq::empty()
    } else {
        let rest = spec_deps_scan(ns, j + 1, end);
        if 0 <= j < ns.len() && ns[j].tag == "Dependencies"@ {
            spec_dep_items(ns, j, spec_subtree_end(ns, j, j + 1)) + rest
        } else {
            rest
        }
    }
}

/// The package record of the `Package` element at index `i`: attributes
/// read off the element, free-text fields by first-descendant search, and
/// the history and dependency records of its subtree.
pub open spec fn spec_package_at(ns: Seq<XmlNodeView>, i: int) -> PackageInfoView {
    let end = spec_subtree_end(ns, i, i + 1);
    PackageInfoView {
        name: spec_attr_or_empty(ns[i].attrs, "name"@),
        summary: spec_text_of(ns, i, "Summary"@),
        description: spec_text_of(ns, i, "Description"@),
        version: spec_text_of(ns, i, "Version"@),
        license: spec_text_of(ns, i, "License"@),
        part_of: spec_attr_or_empty(ns[i].attrs, "partOf"@),
        isa: spec_attr_or_empty(ns[i].attrs, "isa"@),
        package_size: spec_size_attr(ns[i].attrs, "packageSize"@),
        installed_size: spec_size_attr(ns[i].attrs, "installedSize"@),
        history: spec_history_scan(ns, i, end),
        dependencies: spec_deps_scan(ns, i, end),
    }
}

/// The records of the `Package` elements among the first `upto` nodes, in
/// document order.
pub open spec fn spec_packages_prefix(ns: Seq<XmlNodeView>, upto: int) -> Seq<PackageInfoView>
    decreases upto,
{
    if upto <= 0 {
        Seq::empty()
    } else {
        let head = spec_packages_prefix(ns, upto - 1);
        if 0 <= upto - 1 < ns.len() && ns[upto - 1].tag == "Package"@ {
            head + seq![spec_package_at(ns, upto - 1)]
        } else {
            head
        }
    }
}

/// The whole catalog of a parsed document: one record per node tagged
/// `Package`, in document order.
pub open spec fn spec_packages(ns: Seq<XmlNodeView>) -> Seq<PackageInfoView> {
    spec_packages_prefix(ns, ns.len() as int)
}

/// How many of the first `upto` nodes are tagged `Package`.
pub open spec fn spec_package_node_count(ns: Seq<XmlNodeView>, upto: int) -> int
    decreases upto,
{
    if upto <= 0 {
        0
    } else {
        spec_package_node_count(ns, upto - 1) + if 0 <= upto - 1 < ns.len() && ns[upto - 1].tag
            == "Package"@ {
            1int
        } else {
            0int
        }
    }
}

proof fn lemma_packages_prefix_len(ns: Seq<XmlNodeView>, upto: int)
    ensures
        spec_packages_prefix(ns, upto).len() == spec_package_node_count(ns, upto),
    decreases upto,
{
    if upto > 0 {
        lemma_packages_prefix_len(ns, upto - 1);
    }
}

/// The catalog of a parsed document holds exactly one record per node
/// tagged `Package`: as many records as the document has package elements.
pub proof fn lemma_catalog_len(ns: Seq<XmlNodeView>)
    ensures
        spec_packages(ns).len() == spec_package_node_count(ns, ns.len() as int),
{
    lemma_packages_prefix_len(ns, ns.len() as int);
}

/// A package element without `packageSize` and `installedSize` attributes
/// yields zero for both size fields; the record is still produced.
pub proof fn lemma_absent_sizes_default(ns: Seq<XmlNodeView>, i: int)
    requires
        0 <= i < ns.len(),
        spec_attr(ns[i].attrs, "packageSize"@) is None,
        spec_attr(ns[i].attrs, "installedSize"@) is None,
    ensures
        spec_package_at(ns, i).package_size == 0,
        spec_package_at(ns, i).installed_size == 0,
{
}

/// Every history entry carries a positive release number, whatever the
/// `release` attribute held.
pub proof fn lemma_release_positive(n: XmlNodeView)
    ensures
        spec_history_entry(n).release >= 1,
{
}

/// A `History` container whose subtree holds no `Update` element
/// contributes no history entry: the scan passes over it unchanged.
pub proof fn lemma_history_container_without_update(ns: Seq<XmlNodeView>, j: int, end: int)
    requires
        j < end,
        0 <= j < ns.len(),
        ns[j].tag == "History"@,
        spec_find_tag(ns, j, spec_subtree_end(ns, j, j + 1), "Update"@) is None,
    ensures
        spec_history_scan(ns, j, end) == spec_history_scan(ns, j + 1, end),
{
}

/// For a parsed document with N nodes tagged `Package`, the catalog holds
/// N records and the aggregated component counts sum to N.
pub proof fn lemma_component_total(ns: Seq<XmlNodeView>, cs: Seq<ComponentView>)
    requires
        components_of(spec_packages(ns), cs),
    ensures
        spec_packages(ns).len() == spec_package_node_count(ns, ns.len() as int),
        spec_total(cs) == spec_package_node_count(ns, ns.len() as int),
{
    lemma_catalog_len(ns);
}

/// The `part_of` values of a record sequence, in order.
pub open spec fn spec_parts(pkgs: Seq<PackageInfoView>) -> Seq<Seq<char>> {
    pkgs.map_values(|p: PackageInfoView| p.part_of)
}

/// How many entries of `parts` equal `name`.
pub open spec fn spec_count(parts: Seq<Seq<char>>, name: Seq<char>) -> int
    decreases parts.len(),
{
    if parts.len() == 0 {
        0
    } else {
        spec_count(parts.drop_last(), name) + if parts.last() == name {
            1int
        } else {
            0int
        }
    }
}

/// The sum of the package counts of a component sequence.
pub open spec fn spec_total(cs: Seq<ComponentView>) -> int
    decreases cs.len(),
{
    if cs.len() == 0 {
        0
    } else {
        spec_total(cs.drop_last()) + cs.last().package_count
    }
}

/// What the aggregation yields: `cs` holds exactly one entry per distinct
/// `part_of` value of `pkgs`, each counting its occurrences, sorted
/// strictly ascending by name, and the counts sum to the record total.
pub open spec fn components_of(pkgs: Seq<PackageInfoView>, cs: Seq<ComponentView>) -> bool {
    let parts = spec_parts(pkgs);
    &&& forall|k: int|
        0 <= k < cs.len() ==> (#[trigger] cs[k]).package_count == spec_count(parts, cs[k].name)
    &&& forall|k: int| 0 <= k < cs.len() ==> 1 <= (#[trigger] cs[k]).package_count
    &&& forall|k1: int, k2: int|
        0 <= k1 < k2 < cs.len() ==> lex_lt((#[trigger] cs[k1]).name, (#[trigger] cs[k2]).name)
    &&& forall|q: int|
        #![trigger parts[q]]
        0 <= q < parts.len() ==> exists|k: int|
            0 <= k < cs.len() && (#[trigger] cs[k]).name == parts[q]
    &&& spec_total(cs) == pkgs.len()
}

proof fn lemma_count_all_ne(parts: Seq<Seq<char>>, name: Seq<char>)
    requires
        forall|q: int| 0 <= q < parts.len() ==> #[trigger] parts[q] != name,
    ensures
        spec_count(parts, name) == 0,
    decreases parts.len(),
{
    if parts.len() > 0 {
        assert(forall|q: int|
            0 <= q < parts.drop_last().len() ==> #[trigger] parts.drop_last()[q] == parts[q]);
        lemma_count_all_ne(parts.drop_last(), name);
    }
}

proof fn lemma_total_update(cs: Seq<ComponentView>, k: int, c: ComponentView)
    requires
        0 <= k < cs.len(),
    ensures
        spec_total(cs.update(k, c)) == spec_total(cs) - cs[k].package_count + c.package_count,
    decreases cs.len(),
{
    if k == cs.len() - 1 {
        assert(cs.update(k, c).drop_last() =~= cs.drop_last());
        assert(cs.update(k, c).last() == c);
    } else {
        assert(cs.update(k, c).drop_last() =~= cs.drop_last().update(k, c));
        assert(cs.update(k, c).last() == cs.last());
        lemma_total_update(cs.drop_last(), k, c);
    }
}

proof fn lemma_total_insert(cs: Seq<ComponentView>, k: int, c: ComponentView)
    requires
        0 <= k <= cs.len(),
    ensures
        spec_total(cs.insert(k, c)) == spec_total(cs) + c.package_count,
    decreases cs.len(),
{
    if k == cs.len() {
        assert(cs.insert(k, c).drop_last() =~= cs);
        assert(cs.insert(k, c).last() == c);
    } else {
        assert(cs.insert(k, c).drop_last() =~= cs.drop_last().insert(k, c));
        assert(cs.insert(k, c).last() == cs.last());
        lemma_total_insert(cs.drop_last(), k, c);
    }
}

/// The index parser. Parsing is best-effort below the document level:
/// only a malformed document fails, and every absent or unparsable field
/// degrades to its default.
pub struct XmlParser;

impl XmlParser {
    /// The history entries of the subtree of node `i`.
    fn history_of(doc: &XmlDoc, i: usize) -> (r: Vec<PackageHistory>)
        requires
            i < doc@.len(),
        ensures
            r.deep_view() == spec_history_scan(
                doc@,
                i as int,
                spec_subtree_end(doc@, i as int, i + 1),
            ),
    {
        let ghost ns = doc@;
        let end = doc.subtree_end(i);
        let mut out: Vec<PackageHistory> = Vec::new();
        let mut j: usize = i;
        proof {
            assert(out.deep_view() + spec_history_scan(ns, i as int, end as int)
                =~= spec_history_scan(ns, i as int, end as int));
        }
        while j < end
            invariant
                i <= j <= end <= ns.len(),
                ns == doc@,
                out.deep_view() + spec_history_scan(ns, j as int, end as int) == spec_history_scan(
                    ns,
                    i as int,
                    end as int,
                ),
            decreases end - j,
        {
            let ghost prev = out.deep_view();
            if str_eq(doc.nodes[j].tag.as_str(), "History") {
                let hist_end = doc.subtree_end(j);
                if let Some(u) = doc.find_tag(j, hist_end, "Update") {
                    let node = &doc.nodes[u];
                    let version = node.attr_or_empty("version");
                    let date = node.attr_or_empty("date");
                    let release: u32 = match node.attr("release") {
                        Some(s) => match parse_u32(s.as_str()) {
                            Some(v) => {
                                if v >= 1 {
                                    v
                                } else {
                                    1
                                }
                            },
                            None => 1,
                        },
                        None => 1,
                    };
                    let entry = PackageHistory { version, release, date };
                    proof {
                        assert(entry@ == spec_history_entry(ns[u as int]));
                    }
                    out.push(entry);
                    proof {
                        assert(out.deep_view() =~= prev + seq![spec_history_entry(ns[u as int])]);
                        assert(out.deep_view() + spec_history_scan(ns, j + 1, end as int)
                            =~= prev + spec_history_scan(ns, j as int, end as int));
                    }
                }
            }
            proof {
                assert(out.deep_view() + spec_history_scan(ns, j + 1, end as int)
                    =~= prev + spec_history_scan(ns, j as int, end as int));
            }
            j = j + 1;
        }
        proof {
            assert(out.deep_view() =~= out.deep_view() + spec_history_scan(
                ns,
                end as int,
                end as int,
            ));
        }
        out
    }

    /// The dependency records of one `Dependencies` container's subtree.
    fn dep_items_of(doc: &XmlDoc, j: usize) -> (r: Vec<Dependency>)
        requires
            j < doc@.len(),
        ensures
            r.deep_view() == spec_dep_items(
                doc@,
                j as int,
                spec_subtree_end(doc@, j as int, j + 1),
            ),
    {
        let ghost ns = doc@;
        let end = doc.subtree_end(j);
        let mut out: Vec<Dependency> = Vec::new();
        let mut d: usize = j;
        proof {
            assert(out.deep_view() + spec_dep_items(ns, j as int, end as int) =~= spec_dep_items(
                ns,
                j as int,
                end as int,
            ));
        }
        while d < end
            invariant
                j <= d <= end <= ns.len(),
                ns == doc@,
                out.deep_view() + spec_dep_items(ns, d as int, end as int) == spec_dep_items(
                    ns,
                    j as int,
                    end as int,
                ),
            decreases end - d,
        {
            let ghost prev = out.deep_view();
            if str_eq(doc.nodes[d].tag.as_str(), "Dependency") {
                let node = &doc.nodes[d];
                let dep = Dependency {
                    name: node.text.clone(),
                    version: node.attr_or_empty("version"),
                };
                proof {
                    assert(dep@ == spec_dependency(ns[d as int]));
                }
                out.push(dep);
                proof {
                    assert(out.deep_view() =~= prev + seq![spec_dependency(ns[d as int])]);
                    assert(out.deep_view() + spec_dep_items(ns, d + 1, end as int) =~= prev
                        + spec_dep_items(ns, d as int, end as int));
                }
            }
            proof {
                assert(out.deep_view() + spec_dep_items(ns, d + 1, end as int) =~= prev
                    + spec_dep_items(ns, d as int, end as int));
            }
            d = d + 1;
        }
        proof {
            assert(out.deep_view() =~= out.deep_view() + spec_dep_items(
                ns,
                end as int,
                end as int,
            ));
        }
        out
    }

    /// The dependency records of the subtree of node `i`.
    fn dependencies_of(doc: &XmlDoc, i: usize) -> (r: Vec<Dependency>)
        requires
            i < doc@.len(),
        ensures
            r.deep_view() == spec_deps_scan(
                doc@,
                i as int,
                spec_subtree_end(doc@, i as int, i + 1),
            ),
    {
        let ghost ns = doc@;
        let end = doc.subtree_end(i);
        let mut out: Vec<Dependency> = Vec::new();
        let mut j: usize = i;
        proof {
            assert(out.deep_view() + spec_deps_scan(ns, i as int, end as int) =~= spec_deps_scan(
                ns,
                i as int,
                end as int,
            ));
        }
        while j < end
            invariant
                i <= j <= end <= ns.len(),
                ns == doc@,
                out.deep_view() + spec_deps_scan(ns, j as int, end as int) == spec_deps_scan(
                    ns,
                    i as int,
                    end as int,
                ),
            decreases end - j,
        {
            let ghost prev = out.deep_view();
            if str_eq(doc.nodes[j].tag.as_str(), "Dependencies") {
                let mut items = Self::dep_items_of(doc, j);
                let ghost items_view = items.deep_view();
                out.append(&mut items);
                proof {
                    assert(out.deep_view() =~= prev + items_view);
                    assert(out.deep_view() + spec_deps_scan(ns, j + 1, end as int) =~= prev
                        + spec_deps_scan(ns, j as int, end as int));
                }
            }
            proof {
                assert(out.deep_view() + spec_deps_scan(ns, j + 1, end as int) =~= prev
                    + spec_deps_scan(ns, j as int, end as int));
            }
            j = j + 1;
        }
        proof {
            assert(out.deep_view() =~= out.deep_view() + spec_deps_scan(
                ns,
                end as int,
                end as int,
            ));
        }
        out
    }

    /// The record of the `Package` element at index `i`.
    fn package_at(doc: &XmlDoc, i: usize) -> (r: PackageInfo)
        requires
            i < doc@.len(),
        ensures
            r.deep_view() == spec_package_at(doc@, i as int),
    {
        let node = &doc.nodes[i];
        let package_size: u64 = match node.attr("packageSize") {
            Some(s) => match parse_u64(s.as_str()) {
                Some(v) => v,
                None => 0,
            },
            None => 0,
        };
        let installed_size: u64 = match node.attr("installedSize") {
            Some(s) => match parse_u64(s.as_str()) {
                Some(v) => v,
                None => 0,
            },
            None => 0,
        };
        PackageInfo {
            name: node.attr_or_empty("name"),
            summary: doc.text_of(i, "Summary"),
            description: doc.text_of(i, "Description"),
            version: doc.text_of(i, "Version"),
            license: doc.text_of(i, "License"),
            part_of: node.attr_or_empty("partOf"),
            isa: node.attr_or_empty("isa"),
            package_size,
            installed_size,
            history: Self::history_of(doc, i),
            dependencies: Self::dependencies_of(doc, i),
        }
    }

    /// The whole catalog of a parsed document: one record per `Package`
    /// element, in document order.
    pub fn packages_of(doc: &XmlDoc) -> (r: Vec<PackageInfo>)
        ensures
            r.deep_view() == spec_packages(doc@),
    {
        let ghost ns = doc@;
        let n = doc.nodes.len();
        let mut out: Vec<PackageInfo> = Vec::new();
        let mut i: usize = 0;
        proof {
            assert(out.deep_view() =~= spec_packages_prefix(ns, 0));
        }
        while i < n
            invariant
                0 <= i <= n,
                n == ns.len(),
                ns == doc@,
                out.deep_view() == spec_packages_prefix(ns, i as int),
            decreases n - i,
        {
            let ghost prev = out.deep_view();
            if str_eq(doc.nodes[i].tag.as_str(), "Package") {
                let record = Self::package_at(doc, i);
                out.push(record);
                proof {
                    assert(out.deep_view() =~= prev + seq![spec_package_at(ns, i as int)]);
                }
            }
            i = i + 1;
        }
        out
    }

    /// One entry per distinct `part_of` value of the given records (the
    /// empty string counting as a value of its own), each carrying how
    /// many records declare it, sorted ascending by name.
    pub fn parse_components(packages: &[PackageInfo]) -> (r: Vec<Component>)
        ensures
            components_of(packages.deep_view(), r.deep_view()),
    {
        let ghost parts = spec_parts(packages.deep_view());
        let mut out: Vec<Component> = Vec::new();
        let mut i: usize = 0;
        proof {
            assert(parts.take(0) =~= Seq::<Seq<char>>::empty());
            assert(out.deep_view() =~= Seq::<ComponentView>::empty());
        }
        while i < packages.len()
            invariant
                0 <= i <= packages.len(),
                parts == spec_parts(packages.deep_view()),
                parts.len() == packages.len(),
                forall|k: int|
                    0 <= k < out.deep_view().len() ==> (#[trigger] out.deep_view()[k]).package_count
                        == spec_count(parts.take(i as int), out.deep_view()[k].name),
                forall|k: int|
                    0 <= k < out.deep_view().len() ==> 1 <= (
                    #[trigger] out.deep_view()[k]).package_count <= i,
                forall|k1: int, k2: int|
                    0 <= k1 < k2 < out.deep_view().len() ==> lex_lt(
                        (#[trigger] out.deep_view()[k1]).name,
                        (#[trigger] out.deep_view()[k2]).name,
                    ),
                forall|q: int|
                    #![trigger parts[q]]
                    0 <= q < i ==> exists|k: int|
                        0 <= k < out.deep_view().len() && (#[trigger] out.deep_view()[k]).name
                            == parts[q],
                spec_total(out.deep_view()) == i,
            decreases packages.len() - i,
        {
            let ghost old_cs = out.deep_view();
            let pkg = &packages[i];
            let pname = &pkg.part_of;
            proof {
                assert(parts[i as int] == packages.deep_view()[i as int].part_of);
                assert(packages.deep_view()[i as int] == packages@[i as int].deep_view());
                assert(pname@ == parts[i as int]);
                assert(parts.take(i + 1).drop_last() =~= parts.take(i as int));
                assert(parts.take(i + 1).last() == parts[i as int]);
            }
            let mut p: usize = 0;
            while p < out.len() && str_lt(out[p].name.as_str(), pname.as_str())
                invariant
                    0 <= p <= out.len(),
                    old_cs == out.deep_view(),
                    pname@ == parts[i as int],
                    forall|k: int| 0 <= k < p ==> lex_lt((#[trigger] old_cs[k]).name, pname@),
                decreases out.len() - p,
            {
                p = p + 1;
            }
            if p < out.len() && str_eq(out[p].name.as_str(), pname.as_str()) {
                let c = out.remove(p);
                proof {
                    assert(c.deep_view() == old_cs[p as int]);
                    assert(1 <= old_cs[p as int].package_count <= i);
                }
                let updated = Component { name: c.name, package_count: c.package_count + 1 };
                let ghost updated_view = updated@;
                out.insert(p, updated);
                proof {
                    assert(out.deep_view() =~= old_cs.update(p as int, updated_view));
                    let cs = out.deep_view();
                    assert(forall|k: int|
                        0 <= k < cs.len() ==> (#[trigger] cs[k]).name == old_cs[k].name);
                    lemma_total_update(old_cs, p as int, updated_view);
                    // a name other than the one at `p` cannot equal `pname`
                    assert forall|k: int|
                        0 <= k < cs.len() && k != p implies (#[trigger] cs[k]).name != pname@ by {
                        if 0 <= k < cs.len() && k != p && cs[k].name == pname@ {
                            if k < p {
                                lemma_lex_irrefl(pname@);
                            } else {
                                assert(lex_lt(old_cs[p as int].name, old_cs[k].name));
                                lemma_lex_irrefl(pname@);
                            }
                        }
                    }
                    assert forall|k: int|
                        0 <= k < cs.len() implies (#[trigger] cs[k]).package_count == spec_count(
                        parts.take(i + 1),
                        cs[k].name,
                    ) by {
                        if k == p {
                            assert(cs[k].name == pname@);
                            assert(spec_count(parts.take(i + 1), pname@) == spec_count(
                                parts.take(i as int),
                                pname@,
                            ) + 1);
                        } else {
                            assert(spec_count(parts.take(i + 1), cs[k].name) == spec_count(
                                parts.take(i as int),
                                cs[k].name,
                            ));
                        }
                    }
                    assert forall|q: int|
                        #![trigger parts[q]]
                        0 <= q < i + 1 implies exists|k: int|
                        0 <= k < cs.len() && (#[trigger] cs[k]).name == parts[q] by {
                        if q < i {
                            let k = choose|k: int|
                                0 <= k < old_cs.len() && (#[trigger] old_cs[k]).name == parts[q];
                            assert(cs[k].name == parts[q]);
                        } else {
                            assert(cs[p as int].name == parts[q]);
                        }
                    }
                }
            } else {
                proof {
                    // every existing name differs from `pname`, so it has
                    // not occurred among the first `i` records
                    assert forall|k: int|
                        0 <= k < old_cs.len() implies (#[trigger] old_cs[k]).name != pname@ by {
                        if 0 <= k < old_cs.len() && old_cs[k].name == pname@ {
                            if k < p {
                                lemma_lex_irrefl(pname@);
                            } else if k == p {
                            } else {
                                assert(lex_lt(old_cs[p as int].name, old_cs[k].name));
                                if old_cs[p as int].name == pname@ {
                                } else {
                                    lemma_lex_connect(old_cs[p as int].name, pname@);
                                    lemma_lex_trans(pname@, old_cs[p as int].name, old_cs[k].name);
                                    lemma_lex_irrefl(pname@);
                                }
                            }
                        }
                    }
                    assert forall|q: int| 0 <= q < i implies #[trigger] parts[q] != pname@ by {
                        if 0 <= q < i && parts[q] == pname@ {
                            let k = choose|k: int|
                                0 <= k < old_cs.len() && (#[trigger] old_cs[k]).name == parts[q];
                        }
                    }
                    assert(forall|q: int|
                        0 <= q < i ==> #[trigger] parts.take(i as int)[q] != pname@);
                    lemma_count_all_ne(parts.take(i as int), pname@);
                    if p < out.len() {
                        lemma_lex_connect(old_cs[p as int].name, pname@);
                    }
                }
                let fresh = Component { name: pname.clone(), package_count: 1 };
                let ghost fresh_view = fresh@;
                out.insert(p, fresh);
                proof {
                    assert(out.deep_view() =~= old_cs.insert(p as int, fresh_view));
                    let cs = out.deep_view();
                    lemma_total_insert(old_cs, p as int, fresh_view);
                    assert(forall|k: int| 0 <= k < p ==> #[trigger] cs[k] == old_cs[k]);
                    assert(cs[p as int] == fresh_view);
                    assert(forall|k: int|
                        p < k < cs.len() ==> #[trigger] cs[k] == old_cs[k - 1]);
                    assert forall|k1: int, k2: int|
                        0 <= k1 < k2 < cs.len() implies lex_lt(
                        (#[trigger] cs[k1]).name,
                        (#[trigger] cs[k2]).name,
                    ) by {
                        if k2 == p {
                            assert(lex_lt(old_cs[k1].name, pname@));
                        } else if k1 == p {
                            assert(cs[k2].name == old_cs[k2 - 1].name);
                            if k2 - 1 == p {
                                assert(lex_lt(pname@, old_cs[p as int].name));
                            } else {
                                assert(lex_lt(pname@, old_cs[p as int].name));
                                assert(lex_lt(old_cs[p as int].name, old_cs[k2 - 1].name));
                                lemma_lex_trans(pname@, old_cs[p as int].name, old_cs[k2 - 1].name);
                            }
                        } else if k1 < p && k2 > p {
                            assert(lex_lt(old_cs[k1].name, old_cs[k2 - 1].name));
                        }
                    }
                    assert forall|k: int|
                        0 <= k < cs.len() implies (#[trigger] cs[k]).package_count == spec_count(
                        parts.take(i + 1),
                        cs[k].name,
                    ) && 1 <= cs[k].package_count <= i + 1 by {
                        if k == p {
                            assert(spec_count(parts.take(i + 1), pname@) == spec_count(
                                parts.take(i as int),
                                pname@,
                            ) + 1);
                        } else {
                            let k0 = if k < p {
                                k
                            } else {
                                k - 1
                            };
                            assert(cs[k] == old_cs[k0]);
                            assert(cs[k].name != pname@);
                            assert(spec_count(parts.take(i + 1), cs[k].name) == spec_count(
                                parts.take(i as int),
                                cs[k].name,
                            ));
                        }
                    }
                    assert forall|q: int|
                        #![trigger parts[q]]
                        0 <= q < i + 1 implies exists|k: int|
                        0 <= k < cs.len() && (#[trigger] cs[k]).name == parts[q] by {
                        if q < i {
                            let k = choose|k: int|
                                0 <= k < old_cs.len() && (#[trigger] old_cs[k]).name == parts[q];
                            if k < p {
                                assert(cs[k].name == parts[q]);
                            } else {
                                assert(cs[k + 1].name == parts[q]);
                            }
                        } else {
                            assert(cs[p as int].name == parts[q]);
                        }
                    }
                }
            }
            i = i + 1;
        }
        proof {
            assert(parts.take(parts.len() as int) =~= parts);
        }
        out
    }

    /// Parses a package-index document into its catalog. The result is
    /// `Ok` exactly when the text is a well-formed document, and a parse
    /// failure carries the parser's own diagnostic; every field-level
    /// irregularity degrades to a default instead of failing.
    pub fn parse_pisi_index(xml_content: &str) -> (r: Result<Vec<PackageInfo>, PisiError>)
        ensures
            (r is Ok) <==> parsed_document(xml_content@) is Ok,
            r matches Ok(pkgs) ==> (parsed_document(xml_content@) matches Ok(ns)
                && pkgs.deep_view() == spec_packages(ns)),
            r matches Err(e) ==> (parsed_document(xml_content@) matches Err(m) && e@
                == PisiErrorView::Parse(m)),
    {
        match parse_document(xml_content) {
            Ok(doc) => Ok(Self::packages_of(&doc)),
            Err(m) => Err(PisiError::ParseFailure(m)),
        }
    }
}

} // verus!
