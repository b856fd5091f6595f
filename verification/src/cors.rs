//! Which browser origins may call the API with credentials.

use vstd::prelude::*;
use crate::text::{chars_equal, chars_of, ends_with, has_prefix, has_suffix, slice_chars, starts_with, string_of};

verus! {

/// For an allowed origin with a scheme, the scheme and the `.domain`
/// suffix that its subdomains end with.
pub open spec fn subdomain_spec(allowed: Seq<char>) -> Option<(Seq<char>, Seq<char>)> {
    if starts_with(allowed, "https://"@) {
        Some(("https://"@, seq!['.'] + allowed.subrange(8, allowed.len() as int)))
    } else if starts_with(allowed, "http://"@) {
        Some(("http://"@, seq!['.'] + allowed.subrange(7, allowed.len() as int)))
    } else {
        None
    }
}

/// The scheme and dotted-domain suffix that subdomains of `allowed` match,
/// or `None` when it only matches exactly.
pub fn cors_subdomain_pattern(allowed: &str) -> (r: Option<(&'static str, String)>)
    ensures
        match r {
            Some((scheme, suffix)) => subdomain_spec(allowed@) == Some((scheme@, suffix@)),
            None => subdomain_spec(allowed@) is None,
        },
{
    let v = chars_of(allowed);
    let https = chars_of("https://");
    if has_prefix(&v, &https) {
        proof {
            reveal_strlit("https://");
        }
        let mut out: Vec<char> = Vec::new();
        out.push('.');
        let rest = slice_chars(&v, 8, v.len());
        crate::text::push_all(&mut out, &rest);
        return Some(("https://", string_of(&out)));
    }
    let http = chars_of("http://");
    if has_prefix(&v, &http) {
        proof {
            reveal_strlit("http://");
        }
        let mut out: Vec<char> = Vec::new();
        out.push('.');
        let rest = slice_chars(&v, 7, v.len());
        crate::text::push_all(&mut out, &rest);
        return Some(("http://", string_of(&out)));
    }
    None
}

/// The origin is the configured one, one of the OAuth opener origins, or a
/// subdomain of the configured one under the same scheme.
pub open spec fn origin_allowed_spec(
    origin: Seq<char>,
    exact: Seq<char>,
    openers: Seq<Seq<char>>,
    subdomain: Option<(Seq<char>, Seq<char>)>,
) -> bool {
    origin == exact || (exists|i: int| 0 <= i < openers.len() && openers[i] == origin) || match subdomain {
        Some((scheme, suffix)) => starts_with(origin, scheme) && ends_with(origin, suffix),
        None => false,
    }
}

pub open spec fn views(v: Seq<String>) -> Seq<Seq<char>> {
    v.map_values(|s: String| s@)
}

/// Whether a request origin may call the API.
pub fn is_cors_origin_allowed(
    origin: &str,
    exact: &str,
    oauth_opener_origins: &[String],
    subdomain: Option<&(&'static str, String)>,
) -> (r: bool)
    ensures
        r == origin_allowed_spec(
            origin@,
            exact@,
            views(oauth_opener_origins@),
            match subdomain {
                Some(p) => Some((p.0@, p.1@)),
                None => None,
            },
        ),
{
    let o = chars_of(origin);
    if chars_equal(&o, &chars_of(exact)) {
        return true;
    }
    let mut i: usize = 0;
    while i < oauth_opener_origins.len()
        invariant
            i <= oauth_opener_origins@.len(),
            o@ == origin@,
            forall|j: int| 0 <= j < i ==> views(oauth_opener_origins@)[j] != origin@,
        decreases oauth_opener_origins.len() - i,
    {
        if chars_equal(&o, &chars_of(oauth_opener_origins[i].as_str())) {
            assert(views(oauth_opener_origins@)[i as int] == origin@);
            return true;
        }
        i = i + 1;
    }
    match subdomain {
        Some(p) => has_prefix(&o, &chars_of(p.0)) && has_suffix(&o, &chars_of(p.1.as_str())),
        None => false,
    }
}

} // verus!
