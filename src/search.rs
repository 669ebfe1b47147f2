//! Scored search over the registry.

use vstd::prelude::*;

use crate::package::{parse_package_query, query_name, query_variant, ResolvedPackage};
use crate::registry::PackageStorage;
use crate::text::{contains, lower_of, lowercase, opt_eq, opt_view, seq_contains, trim, trim_of};

verus! {

/// The text a package name is compared by.
pub open spec fn search_key(e: ResolvedPackage, case_sensitive: bool) -> Seq<char> {
    if case_sensitive {
        e.package.name@
    } else {
        lower_of(e.package.name@)
    }
}

/// 2 for an exact name match, 1 for a name that contains the needle, 0 otherwise.
pub open spec fn search_score(e: ResolvedPackage, needle: Seq<char>, case_sensitive: bool) -> nat {
    if search_key(e, case_sensitive) == needle {
        2
    } else if seq_contains(search_key(e, case_sensitive), needle) {
        1
    } else {
        0
    }
}

pub open spec fn variant_ok(e: ResolvedPackage, variant: Option<Seq<char>>) -> bool {
    variant is None || variant == opt_view(e.package.variant)
}

/// The entries of `s` with the given score and variant, in order.
pub open spec fn with_score(
    s: Seq<ResolvedPackage>,
    needle: Seq<char>,
    variant: Option<Seq<char>>,
    case_sensitive: bool,
    score: nat,
) -> Seq<ResolvedPackage>
    decreases s.len(),
{
    if s.len() == 0 {
        Seq::empty()
    } else {
        let rest = with_score(s.drop_last(), needle, variant, case_sensitive, score);
        if search_score(s.last(), needle, case_sensitive) == score && variant_ok(s.last(), variant) {
            rest.push(s.last())
        } else {
            rest
        }
    }
}

/// Exact matches first, then partial ones, each in registry order.
pub open spec fn ranked(
    s: Seq<ResolvedPackage>,
    needle: Seq<char>,
    variant: Option<Seq<char>>,
    case_sensitive: bool,
) -> Seq<ResolvedPackage> {
    with_score(s, needle, variant, case_sensitive, 2) + with_score(
        s,
        needle,
        variant,
        case_sensitive,
        1,
    )
}

/// The needle a query text is searched by.
pub open spec fn search_needle(query: Seq<char>, case_sensitive: bool) -> Seq<char> {
    if case_sensitive {
        trim_of(query_name(query))
    } else {
        lower_of(trim_of(query_name(query)))
    }
}

impl PackageStorage {
    /// Ranks every package against a needle that is already trimmed (and
    /// lowercased when the search ignores case).
    pub fn rank_matches(&self, needle: &String, variant: &Option<String>, case_sensitive: bool) -> (r:
        Vec<ResolvedPackage>)
        ensures
            r@ == ranked(self.all_entries(), needle@, opt_view(*variant), case_sensitive),
    {
        let all = self.list_packages(None);
        proof {
            crate::registry::lemma_select_everything(self.all_entries());
        }
        let mut exact: Vec<ResolvedPackage> = Vec::new();
        let mut partial: Vec<ResolvedPackage> = Vec::new();
        let mut i: usize = 0;
        while i < all.len()
            invariant
                i <= all@.len(),
                all@ == self.all_entries(),
                exact@ == with_score(all@.subrange(0, i as int), needle@, opt_view(*variant), case_sensitive, 2),
                partial@ == with_score(all@.subrange(0, i as int), needle@, opt_view(*variant), case_sensitive, 1),
            decreases all@.len() - i,
        {
            let e = &all[i];
            let key = if case_sensitive {
                e.package.name.clone()
            } else {
                lowercase(e.package.name.as_str())
            };
            let var_ok = match variant {
                Some(_) => opt_eq(&e.package.variant, variant),
                None => true,
            };
            if key == *needle {
                if var_ok {
                    exact.push(e.duplicate());
                }
            } else if contains(key.as_str(), needle.as_str()) {
                if var_ok {
                    partial.push(e.duplicate());
                }
            }
            proof {
                assert(all@.subrange(0, i + 1).drop_last() =~= all@.subrange(0, i as int));
                assert(all@.subrange(0, i + 1).last() == all@[i as int]);
            }
            i += 1;
        }
        proof {
            assert(all@.subrange(0, all@.len() as int) =~= all@);
        }
        exact.append(&mut partial);
        exact
    }

    /// Searches by a query text: exact name matches first, then names that
    /// contain the query; the query's variant, if any, must match exactly.
    pub fn search(&self, query: &str, case_sensitive: bool) -> (r: Vec<ResolvedPackage>)
        ensures
            r@ == ranked(
                self.all_entries(),
                search_needle(query@, case_sensitive),
                query_variant(query@),
                case_sensitive,
            ),
    {
        let q = parse_package_query(query);
        let trimmed = trim(q.name.as_str());
        let needle = if case_sensitive {
            trimmed
        } else {
            lowercase(trimmed.as_str())
        };
        self.rank_matches(&needle, &q.variant, case_sensitive)
    }
}


proof fn lemma_with_score(
    s: Seq<ResolvedPackage>,
    needle: Seq<char>,
    variant: Option<Seq<char>>,
    case_sensitive: bool,
    score: nat,
)
    ensures
        forall|i: int|
            0 <= i < with_score(s, needle, variant, case_sensitive, score).len() ==> {
                &&& search_score(
                    #[trigger] with_score(s, needle, variant, case_sensitive, score)[i],
                    needle,
                    case_sensitive,
                ) == score
                &&& variant_ok(with_score(s, needle, variant, case_sensitive, score)[i], variant)
            },
    decreases s.len(),
{
    if s.len() > 0 {
        lemma_with_score(s.drop_last(), needle, variant, case_sensitive, score);
        let rest = with_score(s.drop_last(), needle, variant, case_sensitive, score);
        let out = with_score(s, needle, variant, case_sensitive, score);
        assert forall|i: int| 0 <= i < out.len() implies search_score(
            #[trigger] out[i],
            needle,
            case_sensitive,
        ) == score && variant_ok(out[i], variant) by {
            if i < rest.len() {
                assert(out[i] == rest[i]);
            }
        }
    }
}

/// In a search result every entry scores above zero, and entries are ordered
/// by descending score: each exact name match comes before each partial one.
pub proof fn lemma_search_order(storage: PackageStorage, query: Seq<char>, case_sensitive: bool)
    ensures
        ({
            let needle = search_needle(query, case_sensitive);
            let r = ranked(storage.all_entries(), needle, query_variant(query), case_sensitive);
            &&& forall|i: int|
                0 <= i < r.len() ==> #[trigger] search_score(r[i], needle, case_sensitive) > 0
            &&& forall|i: int, j: int|
                0 <= i < j < r.len() ==> search_score(#[trigger] r[i], needle, case_sensitive)
                    >= search_score(#[trigger] r[j], needle, case_sensitive)
            &&& forall|i: int, j: int|
                0 <= i < r.len() && 0 <= j < r.len() && search_score(
                    #[trigger] r[i],
                    needle,
                    case_sensitive,
                ) == 2 && search_score(#[trigger] r[j], needle, case_sensitive) == 1 ==> i < j
        }),
{
    let needle = search_needle(query, case_sensitive);
    let all = storage.all_entries();
    let v = query_variant(query);
    lemma_with_score(all, needle, v, case_sensitive, 2);
    lemma_with_score(all, needle, v, case_sensitive, 1);
    let a = with_score(all, needle, v, case_sensitive, 2);
    let b = with_score(all, needle, v, case_sensitive, 1);
    let r = ranked(all, needle, v, case_sensitive);
    assert forall|i: int| 0 <= i < r.len() implies (i < a.len() ==> r[i] == a[i]) && (i >= a.len()
        ==> r[i] == b[i - a.len()]) by {}
    assert forall|i: int| 0 <= i < r.len() implies #[trigger] search_score(r[i], needle, case_sensitive)
        > 0 by {
        if i >= a.len() {
            assert(r[i] == b[i - a.len()]);
        }
    }
    assert forall|i: int, j: int| 0 <= i < j < r.len() implies search_score(
        #[trigger] r[i],
        needle,
        case_sensitive,
    ) >= search_score(#[trigger] r[j], needle, case_sensitive) by {
        if j >= a.len() {
            assert(r[j] == b[j - a.len()]);
        }
        if i >= a.len() {
            assert(r[i] == b[i - a.len()]);
        }
    }
    assert forall|i: int, j: int|
        0 <= i < r.len() && 0 <= j < r.len() && search_score(#[trigger] r[i], needle, case_sensitive)
            == 2 && search_score(#[trigger] r[j], needle, case_sensitive) == 1 implies i < j by {
        if j >= a.len() {
            assert(r[j] == b[j - a.len()]);
        }
        if i >= a.len() {
            assert(r[i] == b[i - a.len()]);
        }
    }
}

} // verus!
