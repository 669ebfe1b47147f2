//! Release assets: choosing a release, filtering its assets, reading a
//! project's tag, and choosing one asset.

use vstd::prelude::*;

use crate::text::{
    last_pos, lower_of, lowercase, contains, parse_usize, seq_contains, split_around, split_last,
    trim, trim_of, usize_of, opt_view,
};

verus! {

#[verifier::external_type_specification]
#[verifier::external_body]
pub struct ExRegex(regex::Regex);

/// Whether the regular expression `pattern` matches somewhere in `text`.
pub uninterp spec fn regex_matches(pattern: Seq<char>, text: Seq<char>) -> bool;

/// Whether `regex::Regex::new` accepts `pattern`.
pub uninterp spec fn regex_compiles(pattern: Seq<char>) -> bool;

/// Relies on `regex::Regex::new`: `None` exactly when the pattern does not
/// compile, which depends on the pattern alone.
#[verifier::external_body]
fn compile_regex(pattern: &str) -> (r: Option<regex::Regex>)
    ensures
        r is Some <==> regex_compiles(pattern@),
{
    regex::Regex::new(pattern).ok()
}

/// Relies on `regex::Regex::is_match`. The regex of an `AssetPattern` was
/// compiled from its source text: both fields are private and are set only
/// together, in `AssetPattern::new`.
#[verifier::external_body]
fn regex_is_match(p: &AssetPattern, text: &str) -> (r: bool)
    ensures
        r == regex_matches(p.source(), text@),
{
    p.regex.is_match(text)
}

/// A downloadable file of a release.
#[derive(Debug, Clone)]
pub struct Asset {
    pub name: String,
    pub size: Option<u64>,
    pub url: String,
}

impl Asset {
    /// An independent copy with the same field values.
    pub fn duplicate(&self) -> (r: Asset)
        ensures
            r == *self,
    {
        Asset { name: self.name.clone(), size: self.size, url: self.url.clone() }
    }
}

/// A release: its tag and its assets.
#[derive(Debug, Clone)]
pub struct Release {
    pub tag: String,
    pub assets: Vec<Asset>,
}

/// Why a filter could not be built.
#[derive(Debug, Clone)]
pub enum FilterError {
    /// The regular expression does not compile.
    InvalidPattern(String),
}

/// A compiled regular expression together with its source text.
#[derive(Debug)]
pub struct AssetPattern {
    source: String,
    regex: regex::Regex,
}

impl AssetPattern {
    pub closed spec fn source(&self) -> Seq<char> {
        self.source@
    }

    /// Compiles a pattern, or reports it as invalid.
    pub fn new(pattern: &str) -> (r: Result<AssetPattern, FilterError>)
        ensures
            r is Ok <==> regex_compiles(pattern@),
            match r {
                Ok(p) => p.source() == pattern@,
                Err(FilterError::InvalidPattern(s)) => s@ == pattern@,
            },
    {
        match compile_regex(pattern) {
            Some(regex) => Ok(AssetPattern { source: pattern.to_owned(), regex }),
            None => Err(FilterError::InvalidPattern(pattern.to_owned())),
        }
    }

    /// Whether the pattern matches somewhere in `text`.
    pub fn is_match(&self, text: &str) -> (r: bool)
        ensures
            r == regex_matches(self.source(), text@),
    {
        regex_is_match(self, text)
    }
}

/// What an asset must satisfy to be a candidate: some pattern matches (when
/// any are given), some match keyword occurs (when any are given), and no
/// exclude keyword occurs. soar-dl's own `Filter` asks that every regex and
/// every keyword group match, which is a different rule, so the filter is
/// stated and checked here.
#[derive(Debug)]
pub struct AssetFilter {
    pub patterns: Vec<AssetPattern>,
    pub match_keywords: Vec<String>,
    pub exclude_keywords: Vec<String>,
    pub case_sensitive: bool,
}

/// `s` as keyword matching compares it.
pub open spec fn folded(s: Seq<char>, case_sensitive: bool) -> Seq<char> {
    if case_sensitive {
        s
    } else {
        lower_of(s)
    }
}

/// Some pattern matches `name`.
pub open spec fn any_pattern(ps: Seq<AssetPattern>, name: Seq<char>) -> bool
    decreases ps.len(),
{
    ps.len() > 0 && (any_pattern(ps.drop_last(), name) || regex_matches(ps.last().source(), name))
}

/// Some keyword occurs in `name`.
pub open spec fn any_keyword(kws: Seq<String>, name: Seq<char>, case_sensitive: bool) -> bool
    decreases kws.len(),
{
    kws.len() > 0 && (any_keyword(kws.drop_last(), name, case_sensitive) || seq_contains(
        folded(name, case_sensitive),
        folded(kws.last()@, case_sensitive),
    ))
}

/// An asset name passes: some pattern matches it (when patterns are given),
/// it contains some match keyword (when any are given), and no exclude keyword.
pub open spec fn asset_passes(f: AssetFilter, name: Seq<char>) -> bool {
    &&& (f.patterns@.len() == 0 || any_pattern(f.patterns@, name))
    &&& (f.match_keywords@.len() == 0 || any_keyword(f.match_keywords@, name, f.case_sensitive))
    &&& !any_keyword(f.exclude_keywords@, name, f.case_sensitive)
}

/// The assets that pass, in order.
pub open spec fn kept_assets(assets: Seq<Asset>, f: AssetFilter) -> Seq<Asset>
    decreases assets.len(),
{
    if assets.len() == 0 {
        Seq::empty()
    } else {
        let rest = kept_assets(assets.drop_last(), f);
        if asset_passes(f, assets.last().name@) {
            rest.push(assets.last())
        } else {
            rest
        }
    }
}

fn matches_any_pattern(ps: &Vec<AssetPattern>, name: &str) -> (r: bool)
    ensures
        r == any_pattern(ps@, name@),
{
    let mut found = false;
    let mut i: usize = 0;
    while i < ps.len()
        invariant
            i <= ps@.len(),
            found == any_pattern(ps@.subrange(0, i as int), name@),
        decreases ps@.len() - i,
    {
        proof {
            assert(ps@.subrange(0, i + 1).drop_last() =~= ps@.subrange(0, i as int));
        }
        if ps[i].is_match(name) {
            found = true;
        }
        i += 1;
    }
    proof {
        assert(ps@.subrange(0, ps@.len() as int) =~= ps@);
    }
    found
}

fn fold_case(s: &str, case_sensitive: bool) -> (r: String)
    ensures
        r@ == folded(s@, case_sensitive),
{
    if case_sensitive {
        s.to_owned()
    } else {
        lowercase(s)
    }
}

fn contains_any_keyword(kws: &Vec<String>, name: &str, case_sensitive: bool) -> (r: bool)
    ensures
        r == any_keyword(kws@, name@, case_sensitive),
{
    let hay = fold_case(name, case_sensitive);
    let mut found = false;
    let mut i: usize = 0;
    while i < kws.len()
        invariant
            i <= kws@.len(),
            hay@ == folded(name@, case_sensitive),
            found == any_keyword(kws@.subrange(0, i as int), name@, case_sensitive),
        decreases kws@.len() - i,
    {
        proof {
            assert(kws@.subrange(0, i + 1).drop_last() =~= kws@.subrange(0, i as int));
        }
        let needle = fold_case(kws[i].as_str(), case_sensitive);
        if contains(hay.as_str(), needle.as_str()) {
            found = true;
        }
        i += 1;
    }
    proof {
        assert(kws@.subrange(0, kws@.len() as int) =~= kws@);
    }
    found
}

impl AssetFilter {
    /// Builds a filter, compiling each pattern; fails on the first that does not compile.
    pub fn new(
        regex_patterns: &Vec<String>,
        match_keywords: Vec<String>,
        exclude_keywords: Vec<String>,
        case_sensitive: bool,
    ) -> (r: Result<AssetFilter, FilterError>)
        ensures
            match r {
                Ok(f) => {
                    &&& f.patterns@.len() == regex_patterns@.len()
                    &&& forall|i: int|
                        0 <= i < regex_patterns@.len() ==> #[trigger] f.patterns@[i].source()
                            == regex_patterns@[i]@
                    &&& f.match_keywords == match_keywords
                    &&& f.exclude_keywords == exclude_keywords
                    &&& f.case_sensitive == case_sensitive
                },
                Err(FilterError::InvalidPattern(p)) => !regex_compiles(p@) && exists|i: int|
                    0 <= i < regex_patterns@.len() && regex_patterns@[i]@ == p@ && forall|k: int|
                        0 <= k < i ==> regex_compiles(#[trigger] regex_patterns@[k]@),
            },
            r is Ok <==> forall|i: int|
                0 <= i < regex_patterns@.len() ==> regex_compiles(#[trigger] regex_patterns@[i]@),
    {
        let mut patterns: Vec<AssetPattern> = Vec::new();
        let mut i: usize = 0;
        while i < regex_patterns.len()
            invariant
                i <= regex_patterns@.len(),
                patterns@.len() == i,
                forall|k: int| 0 <= k < i ==> #[trigger] patterns@[k].source() == regex_patterns@[k]@,
                forall|k: int| 0 <= k < i ==> regex_compiles(#[trigger] regex_patterns@[k]@),
            decreases regex_patterns@.len() - i,
        {
            match AssetPattern::new(regex_patterns[i].as_str()) {
                Ok(p) => patterns.push(p),
                Err(e) => {
                    return Err(e);
                },
            }
            i += 1;
        }
        Ok(AssetFilter { patterns, match_keywords, exclude_keywords, case_sensitive })
    }

    /// Whether an asset name passes the filter.
    pub fn accepts(&self, name: &str) -> (r: bool)
        ensures
            r == asset_passes(*self, name@),
    {
        let pattern_ok = self.patterns.len() == 0 || matches_any_pattern(&self.patterns, name);
        let match_ok = self.match_keywords.len() == 0 || contains_any_keyword(
            &self.match_keywords,
            name,
            self.case_sensitive,
        );
        let exclude_ok = !contains_any_keyword(&self.exclude_keywords, name, self.case_sensitive);
        pattern_ok && match_ok && exclude_ok
    }
}

/// The assets that pass the filter, in their order.
pub fn filter_assets(assets: &Vec<Asset>, filter: &AssetFilter) -> (r: Vec<Asset>)
    ensures
        r@ == kept_assets(assets@, *filter),
{
    let mut out: Vec<Asset> = Vec::new();
    let mut i: usize = 0;
    while i < assets.len()
        invariant
            i <= assets@.len(),
            out@ == kept_assets(assets@.subrange(0, i as int), *filter),
        decreases assets@.len() - i,
    {
        proof {
            assert(assets@.subrange(0, i + 1).drop_last() =~= assets@.subrange(0, i as int));
        }
        if filter.accepts(assets[i].name.as_str()) {
            out.push(assets[i].duplicate());
        }
        i += 1;
    }
    proof {
        assert(assets@.subrange(0, assets@.len() as int) =~= assets@);
    }
    out
}

/// The release to take assets from: the first with the requested tag, or
/// the first (latest) one when no tag is requested.
pub fn pick_release(releases: &Vec<Release>, tag: &Option<String>) -> (r: Option<usize>)
    ensures
        match tag {
            None => r == if releases@.len() > 0 {
                Some(0usize)
            } else {
                None
            },
            Some(t) => match r {
                Some(i) => i < releases@.len() && releases@[i as int].tag@ == t@ && forall|k: int|
                    0 <= k < i ==> releases@[k].tag@ != t@,
                None => forall|k: int| 0 <= k < releases@.len() ==> releases@[k].tag@ != t@,
            },
        },
{
    match tag {
        None => if releases.len() > 0 {
            Some(0)
        } else {
            None
        },
        Some(t) => {
            let mut i: usize = 0;
            while i < releases.len()
                invariant
                    i <= releases@.len(),
                    *tag == Some(*t),
                    forall|k: int| 0 <= k < i ==> releases@[k].tag@ != t@,
                decreases releases@.len() - i,
            {
                if releases[i].tag == *t {
                    return Some(i);
                }
                i += 1;
            }
            None
        },
    }
}

/// The candidate assets of the picked release; none when no release fits.
pub fn filter_releases(releases: &Vec<Release>, tag: &Option<String>, filter: &AssetFilter) -> (r:
    Option<Vec<Asset>>)
    ensures
        match r {
            Some(v) => exists|i: int|
                0 <= i < releases@.len() && v@ == kept_assets(releases@[i].assets@, *filter) && (
                match tag {
                    None => i == 0,
                    Some(t) => releases@[i].tag@ == t@ && forall|k: int|
                        0 <= k < i ==> releases@[k].tag@ != t@,
                }),
            None => match tag {
                None => releases@.len() == 0,
                Some(t) => forall|k: int| 0 <= k < releases@.len() ==> releases@[k].tag@ != t@,
            },
        },
{
    match pick_release(releases, tag) {
        Some(i) => Some(filter_assets(&releases[i].assets, filter)),
        None => None,
    }
}

/// The project and tag of `project@tag` text that is already trimmed: split
/// at the last `@`; a tag that trims to nothing counts as none.
pub open spec fn project_of(t: Seq<char>) -> Seq<char> {
    match split_around(t, last_pos(t, '@')) {
        Some((p, _)) => p,
        None => t,
    }
}

pub open spec fn tag_of(t: Seq<char>) -> Option<Seq<char>> {
    match split_around(t, last_pos(t, '@')) {
        Some((_, tag)) => if trim_of(tag).len() > 0 {
            Some(trim_of(tag))
        } else {
            None
        },
        None => None,
    }
}

/// Splits trimmed `project@tag` text into the project and the trimmed tag.
pub fn split_trimmed_project(t: &str) -> (r: (String, Option<String>))
    ensures
        r.0@ == project_of(t@),
        opt_view(r.1) == tag_of(t@),
{
    match split_last(t, '@') {
        Some((p, tag)) => {
            let tag = trim(tag.as_str());
            if !tag.as_str().is_empty() {
                (p, Some(tag))
            } else {
                (p, None)
            }
        },
        None => (t.to_owned(), None),
    }
}

/// Splits `project@tag` into the project and the tag, after trimming.
pub fn split_project_tag(project: &str) -> (r: (String, Option<String>))
    ensures
        r.0@ == project_of(trim_of(project@)),
        opt_view(r.1) == tag_of(trim_of(project@)),
{
    let t = trim(project);
    split_trimmed_project(t.as_str())
}

/// The asset taken without asking: the first, when it is the only candidate
/// or `assume_yes` is set; none when the user must choose.
pub fn auto_asset(count: usize, assume_yes: bool) -> (r: Option<usize>)
    ensures
        r == if count > 0 && (count == 1 || assume_yes) {
            Some(0usize)
        } else {
            None
        },
{
    if count > 0 && (count == 1 || assume_yes) {
        Some(0)
    } else {
        None
    }
}

/// The 0-based index that a parsed 1-based answer selects, if it is in range.
pub fn selection_index(answer: Option<usize>, count: usize) -> (r: Option<usize>)
    ensures
        r == match answer {
            Some(n) => if 1 <= n <= count {
                Some((n - 1) as usize)
            } else {
                None
            },
            None => None,
        },
{
    match answer {
        Some(n) => if 1 <= n && n <= count {
            Some(n - 1)
        } else {
            None
        },
        None => None,
    }
}

/// Reads the user's 1-based answer to a numbered list of `count` assets.
pub fn parse_selection(reply: &str, count: usize) -> (r: Option<usize>)
    ensures
        r == match usize_of(reply@) {
            Some(n) => if 1 <= n <= count {
                Some((n - 1) as usize)
            } else {
                None
            },
            None => None,
        },
{
    selection_index(parse_usize(reply), count)
}

} // verus!
