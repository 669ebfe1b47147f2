//! The package registry: repositories of collections of packages, and the
//! queries that list, find, resolve and search them.

use vstd::prelude::*;

use crate::package::{
    parse_package_query, query_collection, query_name, query_variant, Package, PackageQuery,
    ResolvedPackage,
};
use crate::text::{all_white_space, lemma_trim_padding, opt_eq, opt_view, trim, trim_of};

verus! {

/// The packages filed under one package name.
#[derive(Debug, Clone)]
pub struct PackageGroup {
    pub name: String,
    pub packages: Vec<Package>,
}

/// A named collection of a repository.
#[derive(Debug, Clone)]
pub struct CollectionPackages {
    pub name: String,
    pub groups: Vec<PackageGroup>,
}

/// What one repository supplies: its collections, in order.
#[derive(Debug, Clone)]
pub struct RepositoryPackages {
    pub collection: Vec<CollectionPackages>,
}

/// A repository's name and its packages, as held by the registry.
#[derive(Debug, Clone)]
pub struct RepositoryEntry {
    pub name: String,
    pub packages: RepositoryPackages,
}

/// The registry. Repository names are unique; repositories keep the order
/// in which they were first added.
#[derive(Debug, Clone)]
pub struct PackageStorage {
    repository: Vec<RepositoryEntry>,
}

/// Why a name could not be turned into a package.
#[derive(Debug, Clone)]
pub enum RegistryError {
    /// No package matches the query.
    NotFound(String),
    /// Several packages match and none was chosen.
    Ambiguous(String),
}

/// The outcome of resolving a name that matched at least one package.
#[derive(Debug, Clone)]
pub enum Resolution {
    Unique(ResolvedPackage),
    Ambiguous(Vec<ResolvedPackage>),
}

pub open spec fn entry(repo: String, coll: String, p: Package) -> ResolvedPackage {
    ResolvedPackage { repo_name: repo, collection: coll, package: p }
}

pub open spec fn package_entries(repo: String, coll: String, pkgs: Seq<Package>) -> Seq<
    ResolvedPackage,
>
    decreases pkgs.len(),
{
    if pkgs.len() == 0 {
        Seq::empty()
    } else {
        package_entries(repo, coll, pkgs.drop_last()).push(entry(repo, coll, pkgs.last()))
    }
}

pub open spec fn group_entries(repo: String, coll: String, groups: Seq<PackageGroup>) -> Seq<
    ResolvedPackage,
>
    decreases groups.len(),
{
    if groups.len() == 0 {
        Seq::empty()
    } else {
        group_entries(repo, coll, groups.drop_last()) + package_entries(
            repo,
            coll,
            groups.last().packages@,
        )
    }
}

pub open spec fn collection_entries(repo: String, colls: Seq<CollectionPackages>) -> Seq<
    ResolvedPackage,
>
    decreases colls.len(),
{
    if colls.len() == 0 {
        Seq::empty()
    } else {
        collection_entries(repo, colls.drop_last()) + group_entries(
            repo,
            colls.last().name,
            colls.last().groups@,
        )
    }
}

pub open spec fn repository_entries(repos: Seq<RepositoryEntry>) -> Seq<ResolvedPackage>
    decreases repos.len(),
{
    if repos.len() == 0 {
        Seq::empty()
    } else {
        repository_entries(repos.drop_last()) + collection_entries(
            repos.last().name,
            repos.last().packages.collection@,
        )
    }
}

/// An entry passes each filter that is given: package name, collection, variant.
pub open spec fn selects(
    e: ResolvedPackage,
    name: Option<Seq<char>>,
    coll: Option<Seq<char>>,
    variant: Option<Seq<char>>,
) -> bool {
    &&& (name is None || name == Some(e.package.name@))
    &&& (coll is None || coll == Some(e.collection@))
    &&& (variant is None || variant == opt_view(e.package.variant))
}

pub open spec fn selected(
    s: Seq<ResolvedPackage>,
    name: Option<Seq<char>>,
    coll: Option<Seq<char>>,
    variant: Option<Seq<char>>,
) -> Seq<ResolvedPackage>
    decreases s.len(),
{
    if s.len() == 0 {
        Seq::empty()
    } else {
        let rest = selected(s.drop_last(), name, coll, variant);
        if selects(s.last(), name, coll, variant) {
            rest.push(s.last())
        } else {
            rest
        }
    }
}

impl View for PackageStorage {
    type V = Seq<RepositoryEntry>;

    closed spec fn view(&self) -> Seq<RepositoryEntry> {
        self.repository@
    }
}

/// Keeps the entries that pass the given filters, in order.
fn select(
    entries: &Vec<ResolvedPackage>,
    name: &Option<String>,
    coll: &Option<String>,
    variant: &Option<String>,
) -> (r: Vec<ResolvedPackage>)
    ensures
        r@ == selected(entries@, opt_view(*name), opt_view(*coll), opt_view(*variant)),
{
    let mut out: Vec<ResolvedPackage> = Vec::new();
    let mut i: usize = 0;
    while i < entries.len()
        invariant
            i <= entries@.len(),
            out@ == selected(entries@.subrange(0, i as int), opt_view(*name), opt_view(*coll), opt_view(*variant)),
        decreases entries@.len() - i,
    {
        let e = &entries[i];
        let name_ok = match name {
            Some(n) => e.package.name == *n,
            None => true,
        };
        let coll_ok = match coll {
            Some(c) => e.collection == *c,
            None => true,
        };
        let variant_ok = match variant {
            Some(_) => opt_eq(&e.package.variant, variant),
            None => true,
        };
        if name_ok && coll_ok && variant_ok {
            out.push(e.duplicate());
        }
        proof {
            assert(selects(entries@[i as int], opt_view(*name), opt_view(*coll), opt_view(*variant)) == (name_ok
                && coll_ok && variant_ok));
            assert(entries@.subrange(0, i + 1).drop_last() =~= entries@.subrange(0, i as int));
            assert(entries@.subrange(0, i + 1).last() == entries@[i as int]);
        }
        i += 1;
    }
    proof {
        assert(entries@.subrange(0, entries@.len() as int) =~= entries@);
    }
    out
}


impl CollectionPackages {
    /// Package names of the groups are pairwise distinct.
    pub open spec fn wf(&self) -> bool {
        forall|i: int, j: int|
            0 <= i < j < self.groups@.len() ==> #[trigger] self.groups@[i].name@
                != #[trigger] self.groups@[j].name@
    }

    /// Whether the group names are pairwise distinct.
    pub fn is_well_formed(&self) -> (r: bool)
        ensures
            r == self.wf(),
    {
        let g = &self.groups;
        let mut i: usize = 0;
        while i < g.len()
            invariant
                i <= g@.len(),
                g@ == self.groups@,
                forall|a: int, b: int| 0 <= a < i && a < b < g@.len() ==> #[trigger] g@[a].name@ != #[trigger] g@[b].name@,
            decreases g@.len() - i,
        {
            let mut j: usize = i + 1;
            while j < g.len()
                invariant
                    i < g@.len(),
                    g@ == self.groups@,
                    i + 1 <= j <= g@.len(),
                    forall|a: int, b: int| 0 <= a < i && a < b < g@.len() ==> #[trigger] g@[a].name@ != #[trigger] g@[b].name@,
                    forall|b: int| i < b < j ==> g@[i as int].name@ != #[trigger] g@[b].name@,
                decreases g@.len() - j,
            {
                if g[i].name == g[j].name {
                    assert(self.groups@[i as int].name@ == self.groups@[j as int].name@);
                    return false;
                }
                j += 1;
            }
            i += 1;
        }
        true
    }
}

impl RepositoryPackages {
    /// Collection names are pairwise distinct, and so are the group names
    /// within each collection.
    pub open spec fn wf(&self) -> bool {
        &&& forall|i: int, j: int|
            0 <= i < j < self.collection@.len() ==> #[trigger] self.collection@[i].name@
                != #[trigger] self.collection@[j].name@
        &&& forall|i: int| 0 <= i < self.collection@.len() ==> (#[trigger] self.collection@[i]).wf()
    }

    /// Whether the collection and group names are distinct as `wf` asks.
    pub fn is_well_formed(&self) -> (r: bool)
        ensures
            r == self.wf(),
    {
        let c = &self.collection;
        let mut i: usize = 0;
        while i < c.len()
            invariant
                i <= c@.len(),
                c@ == self.collection@,
                forall|a: int, b: int| 0 <= a < i && a < b < c@.len() ==> #[trigger] c@[a].name@ != #[trigger] c@[b].name@,
                forall|a: int| 0 <= a < i ==> (#[trigger] c@[a]).wf(),
            decreases c@.len() - i,
        {
            if !c[i].is_well_formed() {
                assert(!self.collection@[i as int].wf());
                return false;
            }
            let mut j: usize = i + 1;
            while j < c.len()
                invariant
                    i < c@.len(),
                    c@ == self.collection@,
                    i + 1 <= j <= c@.len(),
                    forall|a: int, b: int| 0 <= a < i && a < b < c@.len() ==> #[trigger] c@[a].name@ != #[trigger] c@[b].name@,
                    forall|b: int| i < b < j ==> c@[i as int].name@ != #[trigger] c@[b].name@,
                decreases c@.len() - j,
            {
                if c[i].name == c[j].name {
                    assert(self.collection@[i as int].name@ == self.collection@[j as int].name@);
                    return false;
                }
                j += 1;
            }
            i += 1;
        }
        true
    }
}

impl PackageStorage {
    /// Repository names are pairwise distinct, and each repository is well formed.
    pub open spec fn wf(&self) -> bool {
        &&& forall|i: int, j: int| 0 <= i < j < self@.len() ==> self@[i].name@ != self@[j].name@
        &&& forall|i: int| 0 <= i < self@.len() ==> (#[trigger] self@[i]).packages.wf()
    }

    /// Every package of the registry, repository by repository, collection by
    /// collection, group by group.
    pub open spec fn all_entries(&self) -> Seq<ResolvedPackage> {
        repository_entries(self@)
    }

    /// The entries named `name`, restricted to a collection and a variant where given.
    pub open spec fn matching(
        &self,
        name: Seq<char>,
        coll: Option<Seq<char>>,
        variant: Option<Seq<char>>,
    ) -> Seq<ResolvedPackage> {
        selected(self.all_entries(), Some(name), coll, variant)
    }

    /// The entries that the query text `s` names.
    pub open spec fn query_matches(&self, s: Seq<char>) -> Seq<ResolvedPackage> {
        self.matching(trim_of(query_name(s)), query_collection(s), query_variant(s))
    }

    pub fn new() -> (r: PackageStorage)
        ensures
            r@ == Seq::<RepositoryEntry>::empty(),
            r.wf(),
    {
        PackageStorage { repository: Vec::new() }
    }

    /// Adds a repository; one of the same name is replaced in place.
    pub fn add_repository(&mut self, repo_name: &str, packages: RepositoryPackages)
        requires
            old(self).wf(),
            packages.wf(),
        ensures
            final(self).wf(),
            forall|k: int|
                0 <= k < old(self)@.len() && old(self)@[k].name@ == repo_name@
                    ==> final(self)@ == old(self)@.update(
                    k,
                    RepositoryEntry { name: old(self)@[k].name, packages },
                ),
            (forall|k: int| 0 <= k < old(self)@.len() ==> old(self)@[k].name@ != repo_name@)
                ==> {
                &&& final(self)@.len() == old(self)@.len() + 1
                &&& final(self)@.subrange(0, old(self)@.len() as int) == old(self)@
                &&& final(self)@.last().name@ == repo_name@
                &&& final(self)@.last().packages == packages
            },
    {
        let key = repo_name.to_owned();
        let mut i: usize = 0;
        while i < self.repository.len()
            invariant
                i <= self.repository@.len(),
                self.repository@ == old(self)@,
                old(self).wf(),
                packages.wf(),
                key@ == repo_name@,
                forall|k: int| 0 <= k < i ==> self.repository@[k].name@ != key@,
            decreases self.repository@.len() - i,
        {
            if self.repository[i].name == key {
                let name = self.repository[i].name.clone();
                self.repository.set(i, RepositoryEntry { name, packages });
                proof {
                    assert forall|k: int| 0 <= k < old(self)@.len() && old(self)@[k].name@ == repo_name@
                        implies k == i by {
                        assert(old(self)@[i as int].name@ == repo_name@);
                        if k < i {
                            assert(old(self)@[k].name@ != old(self)@[i as int].name@);
                        } else if k > i {
                            assert(old(self)@[i as int].name@ != old(self)@[k].name@);
                        }
                    }
                    assert forall|a: int, b: int| 0 <= a < b < self@.len() implies self@[a].name@
                        != self@[b].name@ by {
                        assert(old(self)@[a].name@ != old(self)@[b].name@);
                    }
                    assert forall|a: int| 0 <= a < self@.len() implies (#[trigger] self@[a]).packages.wf() by {
                        if a != i {
                            assert(old(self)@[a].packages.wf());
                        }
                    }
                }
                return;
            }
            i += 1;
        }
        self.repository.push(RepositoryEntry { name: key, packages });
        proof {
            assert(self.repository@.subrange(0, old(self)@.len() as int) =~= old(self)@);
        }
    }

    /// Every package of the registry, in registry order.
    fn all_packages(&self) -> (r: Vec<ResolvedPackage>)
        ensures
            r@ == self.all_entries(),
    {
        let repos = &self.repository;
        let mut out: Vec<ResolvedPackage> = Vec::new();
        let mut i: usize = 0;
        while i < repos.len()
            invariant
                i <= repos@.len(),
                out@ == repository_entries(repos@.subrange(0, i as int)),
            decreases repos@.len() - i,
        {
            let repo = &repos[i];
            let colls = &repo.packages.collection;
            let ghost before_repo = out@;
            let mut j: usize = 0;
            while j < colls.len()
                invariant
                    j <= colls@.len(),
                    out@ == before_repo + collection_entries(repo.name, colls@.subrange(0, j as int)),
                decreases colls@.len() - j,
            {
                let coll = &colls[j];
                let groups = &coll.groups;
                let ghost before_coll = out@;
                let mut k: usize = 0;
                while k < groups.len()
                    invariant
                        k <= groups@.len(),
                        out@ == before_coll + group_entries(repo.name, coll.name, groups@.subrange(0, k as int)),
                    decreases groups@.len() - k,
                {
                    let pkgs = &groups[k].packages;
                    let ghost before_group = out@;
                    let mut m: usize = 0;
                    while m < pkgs.len()
                        invariant
                            m <= pkgs@.len(),
                            out@ == before_group + package_entries(repo.name, coll.name, pkgs@.subrange(0, m as int)),
                        decreases pkgs@.len() - m,
                    {
                        out.push(
                            ResolvedPackage {
                                repo_name: repo.name.clone(),
                                collection: coll.name.clone(),
                                package: pkgs[m].duplicate(),
                            },
                        );
                        proof {
                            assert(pkgs@.subrange(0, m + 1).drop_last() =~= pkgs@.subrange(0, m as int));
                        }
                        m += 1;
                    }
                    proof {
                        assert(pkgs@.subrange(0, pkgs@.len() as int) =~= pkgs@);
                        assert(groups@.subrange(0, k + 1).drop_last() =~= groups@.subrange(0, k as int));
                    }
                    k += 1;
                }
                proof {
                    assert(groups@.subrange(0, groups@.len() as int) =~= groups@);
                    assert(colls@.subrange(0, j + 1).drop_last() =~= colls@.subrange(0, j as int));
                }
                j += 1;
            }
            proof {
                assert(colls@.subrange(0, colls@.len() as int) =~= colls@);
                assert(repos@.subrange(0, i + 1).drop_last() =~= repos@.subrange(0, i as int));
            }
            i += 1;
        }
        proof {
            assert(repos@.subrange(0, repos@.len() as int) =~= repos@);
        }
        out
    }

    /// Every package, or those of the named collection only; no deduplication.
    pub fn list_packages(&self, collection: Option<&str>) -> (r: Vec<ResolvedPackage>)
        ensures
            r@ == selected(
                self.all_entries(),
                None,
                match collection {
                    Some(c) => Some(c@),
                    None => None,
                },
                None,
            ),
    {
        let all = self.all_packages();
        let coll = match collection {
            Some(c) => Some(c.to_owned()),
            None => None,
        };
        select(&all, &None, &coll, &None)
    }

    /// The packages called exactly `name`, in the given collection and of
    /// the given variant where these are set.
    pub fn find_packages(
        &self,
        name: &String,
        collection: &Option<String>,
        variant: &Option<String>,
    ) -> (r: Vec<ResolvedPackage>)
        ensures
            r@ == self.matching(name@, opt_view(*collection), opt_view(*variant)),
    {
        let all = self.all_packages();
        let n = Some(name.clone());
        select(&all, &n, collection, variant)
    }

    /// The packages that a query names, its name trimmed; none when nothing matches.
    pub fn get_packages(&self, query: &PackageQuery) -> (r: Option<Vec<ResolvedPackage>>)
        ensures
            match r {
                Some(v) => {
                    &&& v@ == self.matching(
                        trim_of(query.name@),
                        opt_view(query.collection),
                        opt_view(query.variant),
                    )
                    &&& v@.len() > 0
                },
                None => self.matching(
                    trim_of(query.name@),
                    opt_view(query.collection),
                    opt_view(query.variant),
                ).len() == 0,
            },
    {
        let name = trim(query.name.as_str());
        let found = self.find_packages(&name, &query.collection, &query.variant);
        if found.len() > 0 {
            Some(found)
        } else {
            None
        }
    }

    /// Resolves a query text: an error when nothing matches, the package when
    /// exactly one does, and every candidate when several do.
    pub fn resolve_package(&self, package_name: &str) -> (r: Result<Resolution, RegistryError>)
        ensures
            match r {
                Err(RegistryError::NotFound(n)) => n@ == package_name@ && self.query_matches(
                    package_name@,
                ).len() == 0,
                Err(RegistryError::Ambiguous(_)) => false,
                Ok(Resolution::Unique(p)) => self.query_matches(package_name@).len() == 1
                    && p == self.query_matches(package_name@)[0],
                Ok(Resolution::Ambiguous(v)) => self.query_matches(package_name@).len() > 1
                    && v@ == self.query_matches(package_name@),
            },
    {
        let query = parse_package_query(package_name);
        match self.get_packages(&query) {
            None => Err(RegistryError::NotFound(package_name.to_owned())),
            Some(v) => {
                if v.len() == 1 {
                    Ok(Resolution::Unique(v[0].duplicate()))
                } else {
                    Ok(Resolution::Ambiguous(v))
                }
            },
        }
    }
}


/// The packages of an entry list, in order.
pub open spec fn packages_of(s: Seq<ResolvedPackage>) -> Seq<Package> {
    s.map_values(|e: ResolvedPackage| e.package)
}

pub open spec fn group_packages(groups: Seq<PackageGroup>) -> Seq<Package>
    decreases groups.len(),
{
    if groups.len() == 0 {
        Seq::empty()
    } else {
        group_packages(groups.drop_last()) + groups.last().packages@
    }
}

/// Every package a repository supplies: collection by collection, group by group.
pub open spec fn repository_packages(pk: RepositoryPackages) -> Seq<Package> {
    collection_packages(pk.collection@)
}

pub open spec fn collection_packages(colls: Seq<CollectionPackages>) -> Seq<Package>
    decreases colls.len(),
{
    if colls.len() == 0 {
        Seq::empty()
    } else {
        collection_packages(colls.drop_last()) + group_packages(colls.last().groups@)
    }
}

proof fn lemma_packages_of_add(a: Seq<ResolvedPackage>, b: Seq<ResolvedPackage>)
    ensures
        packages_of(a + b) == packages_of(a) + packages_of(b),
{
    assert(packages_of(a + b) =~= packages_of(a) + packages_of(b));
}

proof fn lemma_package_entries(repo: String, coll: String, pkgs: Seq<Package>)
    ensures
        packages_of(package_entries(repo, coll, pkgs)) == pkgs,
        forall|i: int|
            0 <= i < package_entries(repo, coll, pkgs).len() ==> (#[trigger] package_entries(
                repo,
                coll,
                pkgs,
            )[i]).repo_name == repo,
    decreases pkgs.len(),
{
    if pkgs.len() > 0 {
        lemma_package_entries(repo, coll, pkgs.drop_last());
        let prev = package_entries(repo, coll, pkgs.drop_last());
        assert(packages_of(prev.push(entry(repo, coll, pkgs.last()))) =~= packages_of(prev).push(
            pkgs.last(),
        ));
        assert(pkgs.drop_last().push(pkgs.last()) =~= pkgs);
    }
}

proof fn lemma_group_entries(repo: String, coll: String, groups: Seq<PackageGroup>)
    ensures
        packages_of(group_entries(repo, coll, groups)) == group_packages(groups),
        forall|i: int|
            0 <= i < group_entries(repo, coll, groups).len() ==> (#[trigger] group_entries(
                repo,
                coll,
                groups,
            )[i]).repo_name == repo,
    decreases groups.len(),
{
    if groups.len() > 0 {
        lemma_group_entries(repo, coll, groups.drop_last());
        lemma_package_entries(repo, coll, groups.last().packages@);
        let a = group_entries(repo, coll, groups.drop_last());
        let b = package_entries(repo, coll, groups.last().packages@);
        lemma_packages_of_add(a, b);
        assert forall|i: int| 0 <= i < (a + b).len() implies (#[trigger] (a + b)[i]).repo_name
            == repo by {
            if i >= a.len() {
                assert((a + b)[i] == b[i - a.len()]);
            }
        }
    }
}

proof fn lemma_collection_entries(repo: String, colls: Seq<CollectionPackages>)
    ensures
        packages_of(collection_entries(repo, colls)) == collection_packages(colls),
        forall|i: int|
            0 <= i < collection_entries(repo, colls).len() ==> (#[trigger] collection_entries(
                repo,
                colls,
            )[i]).repo_name == repo,
    decreases colls.len(),
{
    if colls.len() > 0 {
        lemma_collection_entries(repo, colls.drop_last());
        lemma_group_entries(repo, colls.last().name, colls.last().groups@);
        let a = collection_entries(repo, colls.drop_last());
        let b = group_entries(repo, colls.last().name, colls.last().groups@);
        lemma_packages_of_add(a, b);
        assert forall|i: int| 0 <= i < (a + b).len() implies (#[trigger] (a + b)[i]).repo_name
            == repo by {
            if i >= a.len() {
                assert((a + b)[i] == b[i - a.len()]);
            }
        }
    }
}

/// An entry is selected exactly when it is in the list and passes the filters.
pub proof fn lemma_selected_contains(
    s: Seq<ResolvedPackage>,
    name: Option<Seq<char>>,
    coll: Option<Seq<char>>,
    variant: Option<Seq<char>>,
    e: ResolvedPackage,
)
    ensures
        selected(s, name, coll, variant).contains(e) <==> (s.contains(e) && selects(
            e,
            name,
            coll,
            variant,
        )),
    decreases s.len(),
{
    if s.len() > 0 {
        let prev = s.drop_last();
        lemma_selected_contains(prev, name, coll, variant, e);
        let rest = selected(prev, name, coll, variant);
        assert(s == prev.push(s.last()));
        let out = selected(s, name, coll, variant);
        if selects(s.last(), name, coll, variant) {
            assert(out == rest.push(s.last()));
        } else {
            assert(out == rest);
        }
        if s.contains(e) && selects(e, name, coll, variant) {
            let i = choose|i: int| 0 <= i < s.len() && s[i] == e;
            if i < s.len() - 1 {
                assert(prev[i] == e);
                assert(prev.contains(e));
                let j = choose|j: int| 0 <= j < rest.len() && rest[j] == e;
                assert(out[j] == e);
            } else {
                assert(out[out.len() - 1] == e);
            }
        }
        if out.contains(e) {
            let j = choose|j: int| 0 <= j < out.len() && out[j] == e;
            if j < rest.len() {
                assert(rest[j] == e);
                assert(rest.contains(e));
                let i = choose|i: int| 0 <= i < prev.len() && prev[i] == e;
                assert(s[i] == e);
            } else {
                assert(e == s.last());
                assert(s[s.len() - 1] == e);
            }
        }
    }
}

/// The packages found for a name are exactly the registry's packages of that
/// name, in the requested collection and of the requested variant where
/// these are given.
pub proof fn lemma_matching_exact(
    storage: PackageStorage,
    name: Seq<char>,
    coll: Option<Seq<char>>,
    variant: Option<Seq<char>>,
)
    ensures
        forall|e: ResolvedPackage|
            #[trigger] storage.matching(name, coll, variant).contains(e) <==> {
                &&& storage.all_entries().contains(e)
                &&& e.package.name@ == name
                &&& (coll is None || coll == Some(e.collection@))
                &&& (variant is None || variant == opt_view(e.package.variant))
            },
{
    assert forall|e: ResolvedPackage|
        #[trigger] storage.matching(name, coll, variant).contains(e) <==> {
            &&& storage.all_entries().contains(e)
            &&& e.package.name@ == name
            &&& (coll is None || coll == Some(e.collection@))
            &&& (variant is None || variant == opt_view(e.package.variant))
        } by {
        lemma_selected_contains(storage.all_entries(), Some(name), coll, variant, e);
    }
}

/// Loading one repository into an empty registry and listing without a
/// filter gives back every package of the repository once, in order, each
/// under that repository's name.
pub proof fn lemma_round_trip(storage: PackageStorage, repo_name: Seq<char>, pk: RepositoryPackages)
    requires
        storage@.len() == 1,
        storage@[0].name@ == repo_name,
        storage@[0].packages == pk,
    ensures
        packages_of(selected(storage.all_entries(), None, None, None)) == repository_packages(pk),
        forall|i: int|
            0 <= i < selected(storage.all_entries(), None, None, None).len() ==> (#[trigger] selected(
                storage.all_entries(),
                None,
                None,
                None,
            )[i]).repo_name@ == repo_name,
{
    lemma_select_everything(storage.all_entries());
    let r = storage@;
    assert(r.drop_last() =~= Seq::<RepositoryEntry>::empty());
    assert(repository_entries(r.drop_last()) == Seq::<ResolvedPackage>::empty());
    assert(r.last() == r[0]);
    lemma_collection_entries(r[0].name, pk.collection@);
    assert(storage.all_entries() =~= collection_entries(r[0].name, pk.collection@));
}

/// A filter that names nothing keeps everything.
pub proof fn lemma_select_everything(s: Seq<ResolvedPackage>)
    ensures
        selected(s, None, None, None) == s,
    decreases s.len(),
{
    if s.len() > 0 {
        lemma_select_everything(s.drop_last());
        assert(s.drop_last().push(s.last()) =~= s);
    }
}


/// A query name padded with white space finds the same packages as the bare
/// name: names are compared after trimming.
pub proof fn lemma_name_padding(
    storage: PackageStorage,
    pre: Seq<char>,
    name: Seq<char>,
    post: Seq<char>,
    coll: Option<Seq<char>>,
    variant: Option<Seq<char>>,
)
    requires
        all_white_space(pre),
        all_white_space(post),
    ensures
        storage.matching(trim_of(pre + name + post), coll, variant) == storage.matching(
            trim_of(name),
            coll,
            variant,
        ),
{
    lemma_trim_padding(pre, name, post);
}

} // verus!
