//! Routing of download links to the platform that serves them.

use soar_dl::platform::PlatformUrl;
use vstd::prelude::*;

verus! {

/// Where a download link points.
#[derive(Debug, Clone)]
pub enum LinkTarget {
    Github { project: String, tag: Option<String> },
    Gitlab { project: String, tag: Option<String> },
    Oci { reference: String },
    Direct { url: String },
}

/// `s` with every leading repetition of `p` removed, as `str::trim_start_matches` does.
pub open spec fn strip_prefixes(s: Seq<char>, p: Seq<char>) -> Seq<char>
    decreases s.len(),
{
    if p.len() > 0 && s.len() >= p.len() && s.subrange(0, p.len() as int) == p {
        strip_prefixes(s.subrange(p.len() as int, s.len() as int), p)
    } else {
        s
    }
}

/// A link without its leading `https://` and `http://` schemes.
pub open spec fn without_scheme(link: Seq<char>) -> Seq<char> {
    strip_prefixes(
        strip_prefixes(link, seq!['h', 't', 't', 'p', 's', ':', '/', '/']),
        seq!['h', 't', 't', 'p', ':', '/', '/'],
    )
}

/// A link names an OCI artifact when, without its scheme, it starts with `ghcr.io/`.
pub open spec fn is_oci_link(link: Seq<char>) -> bool {
    let t = without_scheme(link);
    t.len() >= 8 && t.subrange(0, 8) == seq!['g', 'h', 'c', 'r', '.', 'i', 'o', '/']
}

/// Relies on `soar_dl::platform::PlatformUrl::parse`: `None` when the link is
/// neither a platform reference nor a URL with a scheme and host. A link that
/// starts with `ghcr.io/` once its scheme is removed is an OCI reference to
/// that text, and nothing else is; a direct link is handed back as it was
/// given. GitHub and GitLab links are told apart by regular expressions of
/// soar-dl that are not restated here.
#[verifier::external_body]
fn parse_platform_url(link: &str) -> (r: Option<LinkTarget>)
    ensures
        match r {
            Some(LinkTarget::Oci { reference }) => is_oci_link(link@) && reference@
                == without_scheme(link@),
            Some(LinkTarget::Direct { url }) => !is_oci_link(link@) && url@ == link@,
            _ => !is_oci_link(link@),
        },
{
    PlatformUrl::parse(link).map(|p| match p {
        PlatformUrl::Github { project, tag } => LinkTarget::Github { project, tag },
        PlatformUrl::Gitlab { project, tag } => LinkTarget::Gitlab { project, tag },
        PlatformUrl::Oci { reference } => LinkTarget::Oci { reference },
        PlatformUrl::Direct { url } => LinkTarget::Direct { url },
    })
}

/// Classifies each link; a link that cannot be parsed is handed back as an
/// error of its own, so the others still proceed. A link is routed to OCI
/// exactly when `is_oci_link` holds of it.
pub fn classify_links(links: &Vec<String>) -> (r: Vec<Result<LinkTarget, String>>)
    ensures
        r@.len() == links@.len(),
        forall|i: int|
            0 <= i < r@.len() ==> match #[trigger] r@[i] {
                Err(s) => s@ == links@[i]@ && !is_oci_link(links@[i]@),
                Ok(LinkTarget::Oci { reference }) => is_oci_link(links@[i]@) && reference@
                    == without_scheme(links@[i]@),
                Ok(LinkTarget::Direct { url }) => url@ == links@[i]@ && !is_oci_link(links@[i]@),
                Ok(_) => !is_oci_link(links@[i]@),
            },
{
    let mut out: Vec<Result<LinkTarget, String>> = Vec::new();
    let mut i: usize = 0;
    while i < links.len()
        invariant
            i <= links@.len(),
            out@.len() == i,
            forall|k: int|
                0 <= k < i ==> match #[trigger] out@[k] {
                    Err(s) => s@ == links@[k]@ && !is_oci_link(links@[k]@),
                    Ok(LinkTarget::Oci { reference }) => is_oci_link(links@[k]@) && reference@
                        == without_scheme(links@[k]@),
                    Ok(LinkTarget::Direct { url }) => url@ == links@[k]@ && !is_oci_link(links@[k]@),
                    Ok(_) => !is_oci_link(links@[k]@),
                },
        decreases links@.len() - i,
    {
        match parse_platform_url(links[i].as_str()) {
            Some(t) => out.push(Ok(t)),
            None => out.push(Err(links[i].clone())),
        }
        i += 1;
    }
    out
}

} // verus!
