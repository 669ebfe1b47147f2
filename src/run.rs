//! The ad-hoc run path: a package that no loaded index lists is synthesised
//! from the query and a repository's base URL for the collection.

use vstd::prelude::*;
use vstd::string::*;

use crate::package::{Package, PackageQuery, ResolvedPackage};
use crate::text::{clone_opt, eq_ascii_case, eq_ignore_ascii_case, opt_view, trim, trim_of};

verus! {

/// The base URL a repository serves one collection from.
#[derive(Debug, Clone)]
pub struct Source {
    pub collection: String,
    pub url: String,
}

/// A configured repository: its name and its sources, in order.
#[derive(Debug, Clone)]
pub struct RepositoryConfig {
    pub name: String,
    pub sources: Vec<Source>,
}

/// Why no package could be synthesised.
#[derive(Debug, Clone, PartialEq, Eq)]
pub enum RunError {
    /// No repository serves the requested collection.
    NoRepository,
}

/// The first source of the named collection, or the first source when no
/// collection is named.
pub open spec fn source_in(sources: Seq<Source>, coll: Option<Seq<char>>) -> Option<Source>
    decreases sources.len(),
{
    if sources.len() == 0 {
        None
    } else if coll is None || coll == Some(sources[0].collection@) {
        Some(sources[0])
    } else {
        source_in(sources.drop_first(), coll)
    }
}

/// The first repository's source that `source_in` finds.
pub open spec fn first_source(repos: Seq<RepositoryConfig>, coll: Option<Seq<char>>) -> Option<
    Source,
>
    decreases repos.len(),
{
    if repos.len() == 0 {
        None
    } else {
        match source_in(repos[0].sources@, coll) {
            Some(s) => Some(s),
            None => first_source(repos.drop_first(), coll),
        }
    }
}

/// `variant/name` when there is a variant, else the name.
pub open spec fn full_name_of(p: Package, sep: Seq<char>) -> Seq<char> {
    match p.variant {
        Some(v) => v@ + sep + p.name@,
        None => p.name@,
    }
}

impl Package {
    /// The name qualified by the variant, joined by `sep`.
    pub fn full_name(&self, sep: &str) -> (r: String)
        ensures
            r@ == full_name_of(*self, sep@),
    {
        match &self.variant {
            Some(v) => v.clone().concat(sep).concat(self.name.as_str()),
            None => self.name.clone(),
        }
    }
}

fn find_source(sources: &Vec<Source>, coll: &Option<String>) -> (r: Option<Source>)
    ensures
        r == source_in(sources@, opt_view(*coll)),
{
    let mut i: usize = 0;
    proof {
        assert(sources@.subrange(0, sources@.len() as int) =~= sources@);
    }
    while i < sources.len()
        invariant
            i <= sources@.len(),
            source_in(sources@, opt_view(*coll)) == source_in(
                sources@.subrange(i as int, sources@.len() as int),
                opt_view(*coll),
            ),
        decreases sources@.len() - i,
    {
        let hit = match coll {
            Some(c) => sources[i].collection == *c,
            None => true,
        };
        proof {
            let rest = sources@.subrange(i as int, sources@.len() as int);
            assert(rest[0] == sources@[i as int]);
            assert(rest.drop_first() =~= sources@.subrange(i + 1, sources@.len() as int));
        }
        if hit {
            return Some(Source { collection: sources[i].collection.clone(), url: sources[i].url.clone() });
        }
        i += 1;
    }
    None
}

fn find_first_source(repos: &Vec<RepositoryConfig>, coll: &Option<String>) -> (r: Option<Source>)
    ensures
        r == first_source(repos@, opt_view(*coll)),
{
    let mut i: usize = 0;
    proof {
        assert(repos@.subrange(0, repos@.len() as int) =~= repos@);
    }
    while i < repos.len()
        invariant
            i <= repos@.len(),
            first_source(repos@, opt_view(*coll)) == first_source(
                repos@.subrange(i as int, repos@.len() as int),
                opt_view(*coll),
            ),
        decreases repos@.len() - i,
    {
        proof {
            let rest = repos@.subrange(i as int, repos@.len() as int);
            assert(rest[0] == repos@[i as int]);
            assert(rest.drop_first() =~= repos@.subrange(i + 1, repos@.len() as int));
        }
        match find_source(&repos[i].sources, coll) {
            Some(s) => {
                return Some(s);
            },
            None => {},
        }
        i += 1;
    }
    None
}

/// The package synthesised for a query that no index lists: its download URL
/// joins the first matching source's base URL and the qualified name; its
/// collection is the query's, else that of the first source of any repository.
pub fn adhoc_package(query: &PackageQuery, repos: &Vec<RepositoryConfig>) -> (r: Result<
    ResolvedPackage,
    RunError,
>)
    ensures
        match first_source(repos@, opt_view(query.collection)) {
            None => r == Err::<ResolvedPackage, RunError>(RunError::NoRepository),
            Some(src) => match r {
                Ok(p) => {
                    &&& p.package.name == query.name
                    &&& p.package.variant == query.variant
                    &&& p.package.download_url@ == src.url@ + seq!['/'] + full_name_of(
                        p.package,
                        seq!['/'],
                    )
                    &&& p.collection@ == match query.collection {
                        Some(c) => c@,
                        None => match first_source(repos@, None) {
                            Some(s) => s.collection@,
                            None => Seq::empty(),
                        },
                    }
                },
                Err(_) => false,
            },
        },
{
    let base = match find_first_source(repos, &query.collection) {
        Some(s) => s,
        None => {
            return Err(RunError::NoRepository);
        },
    };
    let collection = match &query.collection {
        Some(c) => c.clone(),
        None => match find_first_source(repos, &None) {
            Some(s) => s.collection,
            None => String::new(),
        },
    };
    let mut package = Package {
        name: query.name.clone(),
        variant: clone_opt(&query.variant),
        bin_name: String::new(),
        download_url: String::new(),
        build_log: String::new(),
    };
    let full = package.full_name("/");
    proof {
        reveal_strlit("/");
    }
    package.download_url = base.url.concat("/").concat(full.as_str());
    Ok(ResolvedPackage { repo_name: String::new(), collection, package })
}

/// Build logs larger than this many bytes are shown only after confirmation.
pub const LOG_CONFIRM_BYTES: u64 = 1048576;

/// Whether a build log of `content_length` bytes needs the user's confirmation.
pub fn log_needs_confirmation(content_length: u64) -> (r: bool)
    ensures
        r == (content_length > LOG_CONFIRM_BYTES),
{
    content_length > LOG_CONFIRM_BYTES
}

/// Whether a reply, once trimmed, says yes: `y` in either case.
pub fn confirms(reply: &str) -> (r: bool)
    ensures
        r == eq_ascii_case(trim_of(reply@), seq!['y']),
{
    let t = trim(reply);
    proof {
        reveal_strlit("y");
    }
    eq_ignore_ascii_case(t.as_str(), "y")
}

} // verus!
