use vstd::prelude::*;
use vstd::string::StringExecFns;

verus! {

/// Why a login did not yield a session token.
#[derive(Debug, Clone, Copy, PartialEq, Eq, Structural)]
pub enum AuthError {
    /// The login response's status was not a success.
    Rejected,
    /// The login response set no cookie.
    MissingCookie,
}

/// An HTTP status in the success class, 200 to 299.
pub open spec fn success_status(status: u16) -> bool {
    200 <= status <= 299
}

/// Whether `status` is a success status.
pub fn is_success(status: u16) -> (r: bool)
    ensures
        r == success_status(status),
{
    200 <= status && status <= 299
}

/// The path of the login form, below the base url.
pub open spec fn login_path() -> Seq<char> {
    "/app/login/login_check.php"@
}

/// The url that the login form is posted to.
pub fn login_url(base: &str) -> (r: String)
    ensures
        r@ == base@ + login_path(),
{
    let mut r = String::from_str(base);
    r.append("/app/login/login_check.php");
    r
}

/// The fields of the login form: the username, the password, and the page to
/// return to.
pub fn login_form(username: String, password: String) -> (r: Vec<(String, String)>)
    ensures
        r.len() == 3,
        r[0].0@ == "ipamusername"@,
        r[0].1@ == username@,
        r[1].0@ == "ipampassword"@,
        r[1].1@ == password@,
        r[2].0@ == "phpipamredirect"@,
        r[2].1@ == "/"@,
{
    let mut r: Vec<(String, String)> = Vec::new();
    r.push((String::from_str("ipamusername"), username));
    r.push((String::from_str("ipampassword"), password));
    r.push((String::from_str("phpipamredirect"), String::from_str("/")));
    r
}

/// The session token that a login response carries: the value of the last
/// cookie it sets, given as (name, value) pairs in the order of the response.
/// A status outside the success class is a rejection, whatever the cookies.
pub fn select_token(status: u16, cookies: &Vec<(String, String)>) -> (r: Result<String, AuthError>)
    ensures
        !success_status(status) ==> r == Err::<String, AuthError>(AuthError::Rejected),
        success_status(status) && cookies.len() == 0 ==> r == Err::<String, AuthError>(
            AuthError::MissingCookie,
        ),
        success_status(status) && cookies.len() > 0 ==> (r matches Ok(t) && t@
            == cookies@.last().1@),
{
    if !is_success(status) {
        return Err(AuthError::Rejected);
    }
    let n = cookies.len();
    if n == 0 {
        return Err(AuthError::MissingCookie);
    }
    Ok(cookies[n - 1].1.clone())
}

} // verus!
