//! Laws on resolving the dependencies of a manifest.

use std::sync::Arc;

use vstd::prelude::*;

use crate::dependency::{apply_pin, with_pins, Dependency};
use crate::file_types::FileType;
use crate::laws::deciding::{allowed, is_best_entry, some_reads, the_entry_chosen};
use crate::laws::{framed, is_frame};
use crate::lockfile_graph::{LockfileGraph, LockfilePackage};
use crate::lockfile_resolver::{
    contents, lookup_for, looked_up_by_name, names_are_normalized_on_both_sides, names_of, pins_of,
    resolve_by_key, resolve_versions_from_lockfile, select_resolver, versions_of, LockfileResolver,
    Lookup, ResolverKind,
};
use crate::loose::loose_version;
use crate::precedence::version_order;
use crate::selection::{locked_choice, locked_version};
use crate::semver_api::requirement_reads;
use crate::staleness::{lockfile_is_stale, stale};

verus! {

/// `at` lists the positions of `wanted` among `keys`, all of them, from left to
/// right.
pub open spec fn positions(at: Seq<int>, wanted: Seq<char>, keys: Seq<Seq<char>>) -> bool {
    &&& forall|p: int|
        0 <= p < at.len() ==> 0 <= #[trigger] at[p] < keys.len() && keys[at[p]] == wanted
    &&& forall|p: int, q: int| 0 <= p < q < at.len() ==> #[trigger] at[p] < #[trigger] at[q]
    &&& forall|i: int| 0 <= i < keys.len() && #[trigger] keys[i] == wanted ==> at.contains(i)
}

/// The versions considered for a key are those of the packages with that key, all
/// of them, in the order of the lockfile.
pub proof fn pins_keep_the_order_of_the_lockfile(
    wanted: Seq<char>,
    keys: Seq<Seq<char>>,
    versions: Seq<Seq<char>>,
) -> (at: Seq<int>)
    requires
        keys.len() == versions.len(),
    ensures
        positions(at, wanted, keys),
        pins_of(wanted, keys, versions).len() == at.len(),
        forall|p: int|
            0 <= p < at.len() ==> #[trigger] pins_of(wanted, keys, versions)[p] == versions[at[p]],
    decreases keys.len(),
{
    if keys.len() == 0 {
        Seq::empty()
    } else {
        let ks = keys.drop_last();
        let vs = versions.drop_last();
        let last = keys.len() - 1;
        let before = pins_keep_the_order_of_the_lockfile(wanted, ks, vs);
        assert forall|i: int| 0 <= i < ks.len() && #[trigger] keys[i] == wanted implies
            before.contains(i) by {
            assert(ks[i] == wanted);
        }
        if keys.last() == wanted {
            let at = before.push(last);
            assert forall|i: int| 0 <= i < keys.len() && #[trigger] keys[i] == wanted implies
                at.contains(i) by {
                if i < last {
                    let p = before.index_of(i);
                    assert(at[p] == i);
                } else {
                    assert(at[before.len() as int] == i);
                }
            }
            assert forall|p: int| 0 <= p < at.len() implies 0 <= #[trigger] at[p] < keys.len()
                && keys[at[p]] == wanted by {
                if p < before.len() {
                    assert(at[p] == before[p]);
                    assert(ks[before[p]] == wanted);
                }
            }
            assert forall|p: int| 0 <= p < at.len() implies #[trigger] pins_of(
                wanted,
                keys,
                versions,
            )[p] == versions[at[p]] by {
                if p < before.len() {
                    assert(at[p] == before[p]);
                    assert(vs[before[p]] == versions[before[p]]);
                }
            }
            at
        } else {
            assert forall|p: int| 0 <= p < before.len() implies 0 <= #[trigger] before[p]
                < keys.len() && keys[before[p]] == wanted by {
                assert(ks[before[p]] == wanted);
            }
            assert forall|p: int| 0 <= p < before.len() implies #[trigger] pins_of(
                wanted,
                keys,
                versions,
            )[p] == versions[before[p]] by {
                assert(vs[before[p]] == versions[before[p]]);
            }
            before
        }
    }
}

/// Position `i` is the first at which `wanted` stands among `keys`.
pub open spec fn is_first(wanted: Seq<char>, keys: Seq<Seq<char>>, i: int) -> bool {
    &&& 0 <= i < keys.len()
    &&& keys[i] == wanted
    &&& forall|j: int| 0 <= j < i ==> #[trigger] keys[j] != wanted
}

/// The version of the first package with the key is considered first.
pub proof fn the_first_package_comes_first(
    wanted: Seq<char>,
    keys: Seq<Seq<char>>,
    versions: Seq<Seq<char>>,
    i: int,
)
    requires
        keys.len() == versions.len(),
        is_first(wanted, keys, i),
    ensures
        pins_of(wanted, keys, versions).len() > 0,
        pins_of(wanted, keys, versions)[0] == versions[i],
{
    let at = pins_keep_the_order_of_the_lockfile(wanted, keys, versions);
    assert(at.contains(i));
    let p = at.index_of(i);
    assert(at[p] == i);
    assert(keys[at[0]] == wanted);
    if p > 0 {
        assert(at[0] < at[p]);
    }
    assert(pins_of(wanted, keys, versions)[0] == versions[at[0]]);
}

/// Of two packages with the key, the version of the earlier one is considered
/// before that of the later one.
pub proof fn earlier_packages_come_before_later_ones(
    wanted: Seq<char>,
    keys: Seq<Seq<char>>,
    versions: Seq<Seq<char>>,
    i: int,
    j: int,
)
    requires
        keys.len() == versions.len(),
        0 <= i < j < keys.len(),
        keys[i] == wanted,
        keys[j] == wanted,
    ensures
        exists|p: int, q: int|
            0 <= p < q < pins_of(wanted, keys, versions).len() && #[trigger] pins_of(
                wanted,
                keys,
                versions,
            )[p] == versions[i] && #[trigger] pins_of(wanted, keys, versions)[q] == versions[j],
{
    let pins = pins_of(wanted, keys, versions);
    let at = pins_keep_the_order_of_the_lockfile(wanted, keys, versions);
    assert(at.contains(i) && at.contains(j));
    let p = at.index_of(i);
    let q = at.index_of(j);
    assert(at[p] == i && at[q] == j);
    if q < p {
        assert(at[q] < at[p]);
    }
    assert(pins[p] == versions[i] && pins[q] == versions[j]);
}

/// Some package with the key has a version that can be read.
pub open spec fn some_package_reads(
    wanted: Seq<char>,
    keys: Seq<Seq<char>>,
    versions: Seq<Seq<char>>,
) -> bool {
    exists|i: int|
        0 <= i < keys.len() && #[trigger] keys[i] == wanted && loose_version(versions[i]) is Some
}

/// Package `k` has the key and a version that the requirement admits, no other
/// such package has a higher one, and none behind it has an equal one.
pub open spec fn is_best_package(
    requirement: Seq<char>,
    wanted: Seq<char>,
    keys: Seq<Seq<char>>,
    versions: Seq<Seq<char>>,
    k: int,
) -> bool {
    &&& 0 <= k < keys.len()
    &&& keys[k] == wanted
    &&& allowed(requirement, loose_version(versions[k]))
    &&& forall|j: int|
        0 <= j < keys.len() && #[trigger] keys[j] == wanted && allowed(
            requirement,
            loose_version(versions[j]),
        ) ==> {
            let other = loose_version(versions[j])->0;
            let best = loose_version(versions[k])->0;
            version_order(other, best) is Lower || (j <= k && other == best)
        }
}

/// `r` is the version locked for a key under a requirement. Where the requirement
/// can be read, and a version of a package with the key too, it is that of the best
/// package that the requirement admits. Otherwise it is that of the first package
/// with the key.
pub open spec fn locked_for(
    requirement: Seq<char>,
    wanted: Seq<char>,
    keys: Seq<Seq<char>>,
    versions: Seq<Seq<char>>,
    r: Option<Seq<char>>,
) -> bool {
    if requirement_reads(requirement) && some_package_reads(wanted, keys, versions) {
        match r {
            Some(v) => exists|k: int| #[trigger]
                is_best_package(requirement, wanted, keys, versions, k) && versions[k] == v,
            None => forall|j: int|
                0 <= j < keys.len() && #[trigger] keys[j] == wanted ==> !allowed(
                    requirement,
                    loose_version(versions[j]),
                ),
        }
    } else {
        match r {
            Some(v) => exists|i: int| #[trigger] is_first(wanted, keys, i) && versions[i] == v,
            None => forall|j: int| 0 <= j < keys.len() ==> #[trigger] keys[j] != wanted,
        }
    }
}

proof fn lemma_position(at: Seq<int>, wanted: Seq<char>, keys: Seq<Seq<char>>, i: int) -> (p: int)
    requires
        positions(at, wanted, keys),
        0 <= i < keys.len(),
        keys[i] == wanted,
    ensures
        0 <= p < at.len(),
        at[p] == i,
{
    assert(at.contains(i));
    at.index_of(i)
}

proof fn lemma_pins_read(wanted: Seq<char>, keys: Seq<Seq<char>>, versions: Seq<Seq<char>>)
    requires
        keys.len() == versions.len(),
    ensures
        some_reads(pins_of(wanted, keys, versions)) <==> some_package_reads(wanted, keys, versions),
{
    let pins = pins_of(wanted, keys, versions);
    let at = pins_keep_the_order_of_the_lockfile(wanted, keys, versions);
    if some_reads(pins) {
        let p = choose|p: int| 0 <= p < pins.len() && loose_version(#[trigger] pins[p]) is Some;
        assert(pins[p] == versions[at[p]]);
        assert(keys[at[p]] == wanted);
    }
    if some_package_reads(wanted, keys, versions) {
        let i = choose|i: int|
            0 <= i < keys.len() && #[trigger] keys[i] == wanted && loose_version(
                versions[i],
            ) is Some;
        let p = lemma_position(at, wanted, keys, i);
        assert(pins[p] == versions[i]);
    }
}

proof fn lemma_best_package(
    requirement: Seq<char>,
    wanted: Seq<char>,
    keys: Seq<Seq<char>>,
    versions: Seq<Seq<char>>,
    c: int,
)
    requires
        keys.len() == versions.len(),
        is_best_entry(requirement, pins_of(wanted, keys, versions), c),
    ensures
        exists|k: int| #[trigger]
            is_best_package(requirement, wanted, keys, versions, k) && versions[k] == pins_of(
                wanted,
                keys,
                versions,
            )[c],
{
    let pins = pins_of(wanted, keys, versions);
    let at = pins_keep_the_order_of_the_lockfile(wanted, keys, versions);
    let k = at[c];
    assert(pins[c] == versions[k]);
    assert forall|j: int|
        0 <= j < keys.len() && #[trigger] keys[j] == wanted && allowed(
            requirement,
            loose_version(versions[j]),
        ) implies {
        let other = loose_version(versions[j])->0;
        let best = loose_version(versions[k])->0;
        version_order(other, best) is Lower || (j <= k && other == best)
    } by {
        let q = lemma_position(at, wanted, keys, j);
        assert(pins[q] == versions[j]);
        if q < c {
            assert(at[q] < at[c]);
        }
    }
    assert(is_best_package(requirement, wanted, keys, versions, k));
}

proof fn lemma_first_pin(wanted: Seq<char>, keys: Seq<Seq<char>>, versions: Seq<Seq<char>>)
    requires
        keys.len() == versions.len(),
    ensures
        pins_of(wanted, keys, versions).len() > 0 ==> exists|i: int| #[trigger]
            is_first(wanted, keys, i) && versions[i] == pins_of(wanted, keys, versions)[0],
        pins_of(wanted, keys, versions).len() == 0 ==> forall|j: int|
            0 <= j < keys.len() ==> #[trigger] keys[j] != wanted,
{
    let pins = pins_of(wanted, keys, versions);
    let at = pins_keep_the_order_of_the_lockfile(wanted, keys, versions);
    assert forall|j: int| 0 <= j < keys.len() && #[trigger] keys[j] == wanted implies at.len() > 0
        && at[0] <= j by {
        let q = lemma_position(at, wanted, keys, j);
        if q > 0 {
            assert(at[0] < at[q]);
        }
    }
    if pins.len() > 0 {
        assert(pins[0] == versions[at[0]]);
        assert(is_first(wanted, keys, at[0]));
    }
}

/// The choice among the packages with a key, told on the packages themselves.
pub proof fn the_version_locked_for_a_key(
    before: Seq<char>,
    marked: bool,
    core: Seq<char>,
    after: Seq<char>,
    wanted: Seq<char>,
    keys: Seq<Seq<char>>,
    versions: Seq<Seq<char>>,
)
    requires
        is_frame(before, marked, core, after),
        keys.len() == versions.len(),
    ensures
        locked_for(
            core,
            wanted,
            keys,
            versions,
            locked_version(framed(before, marked, core, after), pins_of(wanted, keys, versions)),
        ),
{
    let pins = pins_of(wanted, keys, versions);
    let choice = locked_choice(framed(before, marked, core, after), pins);
    the_entry_chosen(before, marked, core, after, pins);
    lemma_pins_read(wanted, keys, versions);
    if requirement_reads(core) && some_package_reads(wanted, keys, versions) {
        if let Some(c) = choice {
            lemma_best_package(core, wanted, keys, versions, c);
        } else {
            let at = pins_keep_the_order_of_the_lockfile(wanted, keys, versions);
            assert forall|j: int| 0 <= j < keys.len() && #[trigger] keys[j] == wanted implies
                !allowed(core, loose_version(versions[j])) by {
                let q = lemma_position(at, wanted, keys, j);
                assert(pins[q] == versions[j]);
            }
        }
    } else {
        lemma_first_pin(wanted, keys, versions);
    }
}

/// Where the declaration is no requirement that can be read, the version locked is
/// that of the first package with the key.
pub proof fn the_first_package_stands_for_an_unreadable_requirement(
    before: Seq<char>,
    marked: bool,
    core: Seq<char>,
    after: Seq<char>,
    wanted: Seq<char>,
    keys: Seq<Seq<char>>,
    versions: Seq<Seq<char>>,
    i: int,
)
    requires
        is_frame(before, marked, core, after),
        keys.len() == versions.len(),
        !requirement_reads(core),
        is_first(wanted, keys, i),
    ensures
        locked_version(framed(before, marked, core, after), pins_of(wanted, keys, versions))
            == Some(versions[i]),
{
    the_first_package_comes_first(wanted, keys, versions, i);
    the_entry_chosen(before, marked, core, after, pins_of(wanted, keys, versions));
}

/// What a list of keys holds.
pub open spec fn spelled_keys(keys: Seq<String>) -> Seq<Seq<char>> {
    Seq::new(keys.len(), |i: int| keys[i]@)
}

/// The name of each package.
pub open spec fn package_names(packages: Seq<LockfilePackage>) -> Seq<Seq<char>> {
    Seq::new(packages.len(), |i: int| packages[i].name@)
}

/// The version of each package.
pub open spec fn package_versions(packages: Seq<LockfilePackage>) -> Seq<Seq<char>> {
    Seq::new(packages.len(), |i: int| packages[i].version@)
}

/// What an optional string holds.
pub open spec fn spelled_pin(r: Option<String>) -> Option<Seq<char>> {
    if r is Some {
        Some(r->0@)
    } else {
        None
    }
}

/// A lookup by key gives the version locked for that key under the declaration,
/// white space and a `v` in front of it aside.
pub proof fn a_lookup_by_key_gives_the_version_locked(
    declared: &str,
    before: Seq<char>,
    marked: bool,
    core: Seq<char>,
    after: Seq<char>,
    wanted: &String,
    keys: &Vec<String>,
    packages: &Vec<LockfilePackage>,
    r: Option<String>,
)
    requires
        is_frame(before, marked, core, after),
        declared@ == framed(before, marked, core, after),
        keys@.len() == packages@.len(),
        call_ensures(resolve_by_key, (declared, wanted, keys, packages), r),
    ensures
        locked_for(
            core,
            wanted@,
            spelled_keys(keys@),
            package_versions(packages@),
            spelled_pin(r),
        ),
{
    assert(contents(keys@) =~= spelled_keys(keys@));
    assert(versions_of(packages@) =~= package_versions(packages@));
    the_version_locked_for_a_key(
        before,
        marked,
        core,
        after,
        wanted@,
        spelled_keys(keys@),
        package_versions(packages@),
    );
}

/// Looks packages up by name alone, with the parser and the names of another
/// resolver, whatever rule for locked versions that one has.
pub struct ByName<R>(pub R);

impl<R: LockfileResolver> LockfileResolver for ByName<R> {
    fn parse_graph(&self, lock_content: &str) -> (r: LockfileGraph)
        ensures
            call_ensures(R::parse_graph, (&self.0, lock_content), r),
    {
        self.0.parse_graph(lock_content)
    }

    fn normalize_name(&self, name: &str) -> (r: String)
        ensures
            call_ensures(R::normalize_name, (&self.0, name), r),
    {
        self.0.normalize_name(name)
    }
}

/// Looks packages up by name as it is written, with the parser of another
/// resolver.
pub struct AsWritten<R>(pub R);

impl<R: LockfileResolver> LockfileResolver for AsWritten<R> {
    fn parse_graph(&self, lock_content: &str) -> (r: LockfileGraph)
        ensures
            call_ensures(R::parse_graph, (&self.0, lock_content), r),
    {
        self.0.parse_graph(lock_content)
    }
}

/// Names are left as they are where a resolver does not say otherwise.
pub proof fn names_are_left_as_they_are<R: LockfileResolver>(
    resolver: &AsWritten<R>,
    name: &str,
    r: String,
)
    requires
        call_ensures(AsWritten::<R>::normalize_name, (resolver, name), r),
    ensures
        r@ == name@,
{
}

/// A lookup by name compares the normalized name of the dependency with the
/// normalized name of each package, and gives the version locked for it under what
/// the dependency declares.
pub proof fn a_lookup_by_name_normalizes_both_sides<R: LockfileResolver>(
    resolver: &ByName<R>,
    f: spec_fn(Seq<char>) -> Seq<char>,
    dep: &Dependency,
    graph: &LockfileGraph,
    before: Seq<char>,
    marked: bool,
    core: Seq<char>,
    after: Seq<char>,
    r: Option<String>,
)
    requires
        forall|n: &str, k: String| #[trigger]
            call_ensures(R::normalize_name, (&resolver.0, n), k) ==> k@ == f(n@),
        is_frame(before, marked, core, after),
        dep.version@ == framed(before, marked, core, after),
        call_ensures(ByName::<R>::resolve_version, (resolver, dep, graph), r),
    ensures
        locked_for(
            core,
            f(dep.name@),
            package_names(graph.packages@).map_values(f),
            package_versions(graph.packages@),
            spelled_pin(r),
        ),
{
    assert(looked_up_by_name(resolver, *dep, *graph, r));
    names_are_normalized_on_both_sides(resolver, f, *dep, *graph, r);
    assert(names_of(graph.packages@) =~= package_names(graph.packages@));
    assert(versions_of(graph.packages@) =~= package_versions(graph.packages@));
    the_version_locked_for_a_key(
        before,
        marked,
        core,
        after,
        f(dep.name@),
        package_names(graph.packages@).map_values(f),
        package_versions(graph.packages@),
    );
}

/// Without a normalization of its own, a resolver looks the package up whose name
/// is that of the dependency, character for character.
pub proof fn a_lookup_by_name_as_written<R: LockfileResolver>(
    resolver: &AsWritten<R>,
    dep: &Dependency,
    graph: &LockfileGraph,
    before: Seq<char>,
    marked: bool,
    core: Seq<char>,
    after: Seq<char>,
    r: Option<String>,
)
    requires
        is_frame(before, marked, core, after),
        dep.version@ == framed(before, marked, core, after),
        call_ensures(AsWritten::<R>::resolve_version, (resolver, dep, graph), r),
    ensures
        locked_for(
            core,
            dep.name@,
            package_names(graph.packages@),
            package_versions(graph.packages@),
            spelled_pin(r),
        ),
{
    let f = |n: Seq<char>| n;
    assert(looked_up_by_name(resolver, *dep, *graph, r));
    names_are_normalized_on_both_sides(resolver, f, *dep, *graph, r);
    assert(names_of(graph.packages@).map_values(f) =~= package_names(graph.packages@));
    assert(versions_of(graph.packages@) =~= package_versions(graph.packages@));
    the_version_locked_for_a_key(
        before,
        marked,
        core,
        after,
        dep.name@,
        package_names(graph.packages@),
        package_versions(graph.packages@),
    );
}

/// The kind of resolver belongs to the type of the manifest and carries the very
/// finding made for it, whatever the extension and the other findings.
pub proof fn the_kind_belongs_to_the_file_type<N, P>(
    file_type: FileType,
    extension: Option<&str>,
    root: Option<String>,
    npm: Option<N>,
    python: Option<P>,
    r: Option<ResolverKind<N, P>>,
)
    requires
        call_ensures(select_resolver::<N, P>, (file_type, extension, root, npm, python), r),
    ensures
        r matches Some(kind) ==> match kind {
            ResolverKind::Cargo { root_package } => file_type is Cargo && root_package == root,
            ResolverKind::Npm(found) => file_type is Npm && npm == Some(found),
            ResolverKind::Python(found) => file_type is Python && python == Some(found),
            ResolverKind::Go => file_type is Go,
            ResolverKind::Php => file_type is Php,
            ResolverKind::Dart => file_type is Dart,
            ResolverKind::Csharp => file_type is Csharp,
            ResolverKind::Ruby => file_type is Ruby,
        },
{
}

/// A resolver is missing exactly for Maven, for npm and Python without a lockfile,
/// and for C# with any extension but `csproj`.
pub proof fn when_a_resolver_is_missing<N, P>(
    file_type: FileType,
    extension: Option<&str>,
    root: Option<String>,
    npm: Option<N>,
    python: Option<P>,
    r: Option<ResolverKind<N, P>>,
)
    requires
        call_ensures(select_resolver::<N, P>, (file_type, extension, root, npm, python), r),
    ensures
        r is None <==> {
            ||| file_type is Maven
            ||| file_type is Npm && npm is None
            ||| file_type is Python && python is None
            ||| file_type is Csharp && !(extension is Some && extension->0@ == seq![
                'c',
                's',
                'p',
                'r',
                'o',
                'j',
            ])
        },
{
    reveal_strlit("csproj");
    assert("csproj"@ =~= seq!['c', 's', 'p', 'r', 'o', 'j']);
}

/// The extension plays a part for C# only, and each finding for its own type only.
pub proof fn nothing_else_plays_a_part<N, P>(
    file_type: FileType,
    extension1: Option<&str>,
    root1: Option<String>,
    npm1: Option<N>,
    python1: Option<P>,
    r1: Option<ResolverKind<N, P>>,
    extension2: Option<&str>,
    root2: Option<String>,
    npm2: Option<N>,
    python2: Option<P>,
    r2: Option<ResolverKind<N, P>>,
)
    requires
        call_ensures(select_resolver::<N, P>, (file_type, extension1, root1, npm1, python1), r1),
        call_ensures(select_resolver::<N, P>, (file_type, extension2, root2, npm2, python2), r2),
        file_type is Csharp ==> extension1 == extension2,
        file_type is Cargo ==> root1 == root2,
        file_type is Npm ==> npm1 == npm2,
        file_type is Python ==> python1 == python2,
    ensures
        r1 == r2,
{
}

/// Each lookup is made for one type of manifest, and for the others none is.
pub proof fn each_lookup_has_its_file_type(file_type: FileType, r: Lookup)
    requires
        call_ensures(lookup_for, (file_type,), r),
    ensures
        r is CargoRootPackage <==> file_type is Cargo,
        r is NpmLockfile <==> file_type is Npm,
        r is PythonLockfile <==> file_type is Python,
{
}

/// `after` is `before` once the lockfile has answered `pin`: with that pin as its
/// resolved version if it is not stale, and as it was otherwise.
pub open spec fn records(before: Dependency, pin: Option<String>, after: Dependency) -> bool {
    &&& after.name == before.name
    &&& after.version == before.version
    &&& after.name_span == before.name_span
    &&& after.version_span == before.version_span
    &&& after.dev == before.dev
    &&& after.optional == before.optional
    &&& after.registry == before.registry
    &&& after.has_additional_version_constraints == before.has_additional_version_constraints
    &&& pin is Some && !stale(before.version@, pin->0@) ==> after.resolved_version == pin
    &&& pin is None || stale(before.version@, pin->0@) ==> after.resolved_version
        == before.resolved_version
}

/// Recording a pin records it where it is not stale, and changes nothing else.
pub proof fn recording_a_pin(dep: &mut Dependency, pin: Option<String>)
    requires
        call_ensures(apply_pin, (dep, pin), ()),
    ensures
        records(*old(dep), pin, *final(dep)),
{
}

/// Whether a pin is recorded is what `lockfile_is_stale` answers for it.
pub proof fn a_pin_is_recorded_unless_it_is_stale(
    dep: &mut Dependency,
    pin: String,
    declared: &str,
    locked: &str,
    answer: bool,
)
    requires
        declared@ == old(dep).version@,
        locked@ == pin@,
        call_ensures(lockfile_is_stale, (declared, locked), answer),
        call_ensures(apply_pin, (dep, Some(pin)), ()),
    ensures
        answer ==> *final(dep) == *old(dep),
        !answer ==> final(dep).resolved_version == Some(pin),
{
}

/// The version reported is the resolved one where there is one, else the declared
/// one.
pub proof fn the_version_reported(dep: &Dependency, r: &str)
    requires
        call_ensures(Dependency::effective_version, (dep,), r),
    ensures
        dep.resolved_version is Some ==> r@ == dep.resolved_version->0@,
        dep.resolved_version is None ==> r@ == dep.version@,
{
}

/// Without the text of a lockfile nothing changes and no graph comes back. With
/// it, the graph is the one parsed from it, and every dependency, each in its
/// place, records the pin that the resolver finds for it in that graph.
pub proof fn every_dependency_records_its_pin<R: LockfileResolver + ?Sized>(
    dependencies: &mut [Dependency],
    resolver: &R,
    lock_content: Option<&str>,
    r: Option<Arc<LockfileGraph>>,
    i: int,
)
    requires
        call_ensures(
            resolve_versions_from_lockfile::<R>,
            (dependencies, resolver, lock_content),
            r,
        ),
    ensures
        lock_content is None ==> r is None && final(dependencies)@ == old(dependencies)@,
        lock_content is Some ==> {
            &&& r is Some
            &&& call_ensures(R::parse_graph, (resolver, lock_content->0), *r->0)
            &&& final(dependencies)@.len() == old(dependencies)@.len()
        },
        lock_content is Some && 0 <= i < old(dependencies)@.len() ==> exists|pin: Option<String>|
            {
                &&& call_ensures(
                    R::resolve_version,
                    (resolver, &old(dependencies)@[i], &*r->0),
                    pin,
                )
                &&& #[trigger] records(old(dependencies)@[i], pin, final(dependencies)@[i])
            },
{
    if lock_content is Some && 0 <= i < old(dependencies)@.len() {
        let pins = choose|pins: Seq<Option<String>>|
            {
                &&& pins.len() == old(dependencies)@.len()
                &&& forall|j: int|
                    0 <= j < pins.len() ==> call_ensures(
                        R::resolve_version,
                        (resolver, &old(dependencies)@[j], &*r->0),
                        #[trigger] pins[j],
                    )
                &&& final(dependencies)@ == #[trigger] with_pins(old(dependencies)@, pins)
            };
        assert(records(old(dependencies)@[i], pins[i], final(dependencies)@[i]));
    }
}

} // verus!
