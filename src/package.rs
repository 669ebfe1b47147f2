//! Package records and the queries that name them.

use vstd::prelude::*;

use crate::text::{clone_opt, opt_view, split_around, split_first, split_last, first_pos, last_pos};

verus! {

/// One installable artifact.
#[derive(Debug, Clone)]
pub struct Package {
    pub name: String,
    pub variant: Option<String>,
    pub bin_name: String,
    pub download_url: String,
    pub build_log: String,
}

impl Package {
    /// An independent copy with the same field values.
    pub fn duplicate(&self) -> (r: Package)
        ensures
            r == *self,
    {
        Package {
            name: self.name.clone(),
            variant: clone_opt(&self.variant),
            bin_name: self.bin_name.clone(),
            download_url: self.download_url.clone(),
            build_log: self.build_log.clone(),
        }
    }
}

/// A package together with the repository and collection it was found in.
#[derive(Debug, Clone)]
pub struct ResolvedPackage {
    pub repo_name: String,
    pub collection: String,
    pub package: Package,
}

impl ResolvedPackage {
    /// An independent copy with the same field values.
    pub fn duplicate(&self) -> (r: ResolvedPackage)
        ensures
            r == *self,
    {
        ResolvedPackage {
            repo_name: self.repo_name.clone(),
            collection: self.collection.clone(),
            package: self.package.duplicate(),
        }
    }
}

/// A parsed package query: `[variant/]name[#collection]`.
#[derive(Debug, Clone)]
pub struct PackageQuery {
    pub name: String,
    pub variant: Option<String>,
    pub collection: Option<String>,
}

/// The text before the last `#`, or all of it.
pub open spec fn query_base(s: Seq<char>) -> Seq<char> {
    match split_around(s, last_pos(s, '#')) {
        Some((b, _)) => b,
        None => s,
    }
}

/// The non-empty text after the last `#`, if any.
pub open spec fn query_collection(s: Seq<char>) -> Option<Seq<char>> {
    match split_around(s, last_pos(s, '#')) {
        Some((_, c)) => if c.len() > 0 {
            Some(c)
        } else {
            None
        },
        None => None,
    }
}

/// The text of the base before its first `/`, if any.
pub open spec fn query_variant(s: Seq<char>) -> Option<Seq<char>> {
    match split_around(query_base(s), first_pos(query_base(s), '/')) {
        Some((v, _)) => Some(v),
        None => None,
    }
}

/// The text of the base after its first `/`, or the whole base.
pub open spec fn query_name(s: Seq<char>) -> Seq<char> {
    match split_around(query_base(s), first_pos(query_base(s), '/')) {
        Some((_, n)) => n,
        None => query_base(s),
    }
}

/// Parses `[variant/]name[#collection]`; an empty collection counts as none.
pub fn parse_package_query(query: &str) -> (r: PackageQuery)
    ensures
        r.name@ == query_name(query@),
        opt_view(r.variant) == query_variant(query@),
        opt_view(r.collection) == query_collection(query@),
{
    let (base, collection) = match split_last(query, '#') {
        Some((b, c)) => {
            if c.as_str().is_empty() {
                (b, None)
            } else {
                (b, Some(c))
            }
        },
        None => (query.to_owned(), None),
    };
    match split_first(base.as_str(), '/') {
        Some((v, n)) => PackageQuery { name: n, variant: Some(v), collection },
        None => PackageQuery { name: base, variant: None, collection },
    }
}

} // verus!
