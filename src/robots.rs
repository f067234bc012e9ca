//! Robots exclusion: where a site keeps its robots.txt, and what it permits.
use vstd::prelude::*;
use crate::text::opt_view;

verus! {

/// Whether the robots.txt text `txt` lets `agent` fetch `url`; `None` where
/// the text cannot be read as robots rules.
pub uninterp spec fn robots_verdict(agent: Seq<char>, txt: Seq<char>, url: Seq<char>) -> Option<
    bool,
>;

/// The address of the robots.txt that governs `url`; `None` where `url` is not
/// an http or https URL with a host.
pub uninterp spec fn robots_location(url: Seq<char>) -> Option<Seq<char>>;

/// Relies on `texting_robots::Robot::new` (rules for `agent` read from `txt`)
/// and `Robot::allowed` (whether those rules let it fetch `url`).
#[verifier::external_body]
pub(crate) fn robots_allows(agent: &str, txt: &str, url: &str) -> (r: Option<bool>)
    ensures
        r == robots_verdict(agent@, txt@, url@),
{
    texting_robots::Robot::new(agent, txt.as_bytes()).ok().map(|robot| robot.allowed(url))
}

/// Relies on `texting_robots::get_robots_url`: the robots.txt address at the
/// root of the URL's site.
#[verifier::external_body]
pub(crate) fn robots_url_for(url: &str) -> (r: Option<String>)
    ensures
        opt_view(r) == robots_location(url@),
{
    texting_robots::get_robots_url(url).ok()
}

/// Whether `txt` lets `agent` fetch `url`, failing open: rules that cannot be
/// read forbid nothing.
pub open spec fn robots_permit(agent: Seq<char>, txt: Seq<char>, url: Seq<char>) -> bool {
    match robots_verdict(agent, txt, url) {
        Some(b) => b,
        None => true,
    }
}

/// Whether `txt` lets `agent` fetch `url`, failing open.
pub fn permits(agent: &str, txt: &str, url: &str) -> (r: bool)
    ensures
        r == robots_permit(agent@, txt@, url@),
{
    match robots_allows(agent, txt, url) {
        Some(b) => b,
        None => true,
    }
}

} // verus!
