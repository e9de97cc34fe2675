use vstd::prelude::*;
use vstd::string::StringExecFns;

verus! {

/// The path of the search page, below the base url.
pub open spec fn search_path() -> Seq<char> {
    "/index.php"@
}

/// The fixed cookies sent after the session token: the page size of the result
/// table and the search scopes (addresses, subnets, vlans and circuits on;
/// vrf, pstn and customers off), url-encoded.
pub open spec fn fixed_cookies() -> Seq<char> {
    "; table-page-size=50; search_parameters=%7B%22addresses%22%3A%22on%22%2C%22subnets%22%3A%22on%22%2C%22vlans%22%3A%22on%22%2C%22vrf%22%3A%22off%22%2C%22pstn%22%3A%22off%22%2C%22circuits%22%3A%22on%22%2C%22customers%22%3A%22off%22%7D"@
}

/// The url that the search is sent to.
pub fn search_url(base: &str) -> (r: String)
    ensures
        r@ == base@ + search_path(),
{
    let mut r = String::from_str(base);
    r.append("/index.php");
    r
}

/// The query parameters of a search: the search view of the tools page, and
/// the text to look for.
pub fn search_params(query: &str) -> (r: Vec<(String, String)>)
    ensures
        r.len() == 3,
        r[0].0@ == "page"@,
        r[0].1@ == "tools"@,
        r[1].0@ == "section"@,
        r[1].1@ == "search"@,
        r[2].0@ == "ip"@,
        r[2].1@ == query@,
{
    let mut r: Vec<(String, String)> = Vec::new();
    r.push((String::from_str("page"), String::from_str("tools")));
    r.push((String::from_str("section"), String::from_str("search")));
    r.push((String::from_str("ip"), String::from_str(query)));
    r
}

/// The cookie header of a search: the session token as the `phpipam` cookie,
/// then the fixed cookies.
pub fn search_cookie_header(token: &str) -> (r: String)
    ensures
        r@ == "phpipam="@ + token@ + fixed_cookies(),
{
    let mut r = String::from_str("phpipam=");
    r.append(token);
    r.append("; table-page-size=50; search_parameters=%7B%22addresses%22%3A%22on%22%2C%22subnets%22%3A%22on%22%2C%22vlans%22%3A%22on%22%2C%22vrf%22%3A%22off%22%2C%22pstn%22%3A%22off%22%2C%22circuits%22%3A%22on%22%2C%22customers%22%3A%22off%22%7D");
    r
}

} // verus!
