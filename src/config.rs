use vstd::prelude::*;
use vstd::string::StringExecFns;
use crate::text::{before_first, chars_of, copy_range, first_occurrence, lines_of, matches_at, split_lines, string_of};

verus! {

/// Whether the url crate accepts `s` as an absolute url.
pub uninterp spec fn url_parses(s: Seq<char>) -> bool;

/// Relies on `reqwest::Url::parse` (the url crate's parser): it succeeds on
/// exactly the texts that are absolute urls, and depends on the text alone.
#[verifier::external_body]
fn is_valid_url(s: &str) -> (r: bool)
    ensures
        r == url_parses(s@),
{
    reqwest::Url::parse(s).is_ok()
}

/// The settings read from the configuration text.
pub struct Conf {
    /// Base url of the inventory application.
    pub url: String,
    /// Login name, when stored.
    pub username: Option<String>,
    /// Password, when stored.
    pub password: Option<String>,
}

/// Why the configuration text was refused.
#[derive(Debug, Clone, Copy, PartialEq, Eq, Structural)]
pub enum ConfError {
    /// A `url` line holds a value that is not an absolute url.
    InvalidUrl,
}

/// The text of an optional string.
pub open spec fn opt_view(o: Option<String>) -> Option<Seq<char>> {
    match o {
        Some(s) => Some(s@),
        None => None,
    }
}

/// A line of the configuration without one trailing carriage return.
pub open spec fn strip_cr(l: Seq<char>) -> Seq<char> {
    if l.len() > 0 && l.last() == '\r' {
        l.drop_last()
    } else {
        l
    }
}

/// The lines of the configuration text.
pub open spec fn conf_lines(s: Seq<char>) -> Seq<Seq<char>> {
    lines_of(s).map_values(|l: Seq<char>| strip_cr(l))
}

/// The key of a line: the text before its first `=`.
pub open spec fn key_of(l: Seq<char>) -> Seq<char> {
    before_first(l, "="@)
}

/// The value of a line: the text after its first `=`, empty where it has none.
pub open spec fn value_of(l: Seq<char>) -> Seq<char> {
    if key_of(l).len() < l.len() {
        l.skip(key_of(l).len() + 1 as int)
    } else {
        Seq::empty()
    }
}

/// The value of the last line of `ls` with key `key`, if any.
pub open spec fn last_value(ls: Seq<Seq<char>>, key: Seq<char>) -> Option<Seq<char>>
    decreases ls.len(),
{
    if ls.len() == 0 {
        None
    } else if key_of(ls.last()) == key {
        Some(value_of(ls.last()))
    } else {
        last_value(ls.drop_last(), key)
    }
}

/// Some `url` line of `ls` holds a value that is not an absolute url.
pub open spec fn has_bad_url(ls: Seq<Seq<char>>) -> bool {
    exists|i: int|
        0 <= i < ls.len() && key_of(#[trigger] ls[i]) == "url"@ && !url_parses(value_of(ls[i]))
}

/// The configuration with the setting of one `key=value` line applied. A `url`
/// value is taken only where `url_ok` says it is an absolute url; a key other
/// than `url`, `username` and `password` changes nothing.
pub fn update_conf(conf: Conf, key: &str, value: String, url_ok: bool) -> (r: Result<Conf, ConfError>)
    ensures
        key@ == "url"@ && !url_ok ==> r == Err::<Conf, ConfError>(ConfError::InvalidUrl),
        key@ == "url"@ && url_ok ==> (r matches Ok(c) && c.url@ == value@ && opt_view(c.username)
            == opt_view(conf.username) && opt_view(c.password) == opt_view(conf.password)),
        key@ == "username"@ ==> (r matches Ok(c) && c.url@ == conf.url@ && opt_view(c.username)
            == Some(value@) && opt_view(c.password) == opt_view(conf.password)),
        key@ == "password"@ ==> (r matches Ok(c) && c.url@ == conf.url@ && opt_view(c.username)
            == opt_view(conf.username) && opt_view(c.password) == Some(value@)),
        key@ != "url"@ && key@ != "username"@ && key@ != "password"@ ==> (r matches Ok(c) && c.url@
            == conf.url@ && opt_view(c.username) == opt_view(conf.username) && opt_view(
            c.password,
        ) == opt_view(conf.password)),
{
    let k = chars_of(key);
    proof {
        reveal_strlit("url");
        reveal_strlit("username");
        reveal_strlit("password");
        assert("username"@[0] != "password"@[0]);
    }
    if same_chars(&k, &chars_of("url")) {
        if !url_ok {
            return Err(ConfError::InvalidUrl);
        }
        Ok(Conf { url: value, username: conf.username, password: conf.password })
    } else if same_chars(&k, &chars_of("username")) {
        Ok(Conf { url: conf.url, username: Some(value), password: conf.password })
    } else if same_chars(&k, &chars_of("password")) {
        Ok(Conf { url: conf.url, username: conf.username, password: Some(value) })
    } else {
        Ok(conf)
    }
}

/// Whether `a` and `b` hold the same characters.
fn same_chars(a: &Vec<char>, b: &Vec<char>) -> (r: bool)
    ensures
        r == (a@ == b@),
{
    if a.len() != b.len() {
        return false;
    }
    let r = matches_at(a, b, 0);
    assert(a@.subrange(0, a.len() as int) =~= a@);
    r
}


/// The url that the lines `ls` set: that of the last `url` line, empty where
/// there is none.
pub open spec fn conf_url(ls: Seq<Seq<char>>) -> Seq<char> {
    match last_value(ls, "url"@) {
        Some(v) => v,
        None => Seq::empty(),
    }
}

/// Reads the configuration text: one `key=value` setting per line, for the
/// keys `url`, `username` and `password`; the last line with a key decides its
/// value, and lines with other keys are passed over. It is refused where a
/// `url` line holds a value that is not an absolute url.
pub fn parse_conf(conf: &String) -> (r: Result<Conf, ConfError>)
    ensures
        has_bad_url(conf_lines(conf@)) ==> r == Err::<Conf, ConfError>(ConfError::InvalidUrl),
        !has_bad_url(conf_lines(conf@)) ==> (r matches Ok(c) && c.url@ == conf_url(
            conf_lines(conf@),
        ) && opt_view(c.username) == last_value(conf_lines(conf@), "username"@) && opt_view(
            c.password,
        ) == last_value(conf_lines(conf@), "password"@)),
{
    let text = chars_of(conf.as_str());
    let raw = split_lines(&text);
    let ghost ls = conf_lines(text@);
    let eq = chars_of("=");
    let mut cur = Conf { url: String::new(), username: None, password: None };
    let n = raw.len();
    let mut i: usize = 0;
    assert(ls.take(0) =~= Seq::<Seq<char>>::empty());
    while i < n
        invariant
            n == raw.len() == lines_of(text@).len() == ls.len(),
            i <= n,
            ls == conf_lines(text@),
            text@ == conf@,
            eq@ == "="@,
            forall|j: int| 0 <= j < n ==> #[trigger] raw[j]@ == lines_of(text@)[j],
            !has_bad_url(ls.take(i as int)),
            cur.url@ == conf_url(ls.take(i as int)),
            opt_view(cur.username) == last_value(ls.take(i as int), "username"@),
            opt_view(cur.password) == last_value(ls.take(i as int), "password"@),
        decreases n - i,
    {
        let line_raw = &raw[i];
        let m = line_raw.len();
        let end: usize = if m > 0 && line_raw[m - 1] == '\r' { m - 1 } else { m };
        let line = copy_range(line_raw, 0, end);
        assert(line@ == ls[i as int]) by {
            if m > 0 && line_raw@.last() == '\r' {
                assert(line_raw@.subrange(0, end as int) =~= line_raw@.drop_last());
            } else {
                assert(line_raw@.subrange(0, end as int) =~= line_raw@);
            }
        }
        let cut = first_occurrence(&line, &eq);
        let key = string_of(&line, 0, cut);
        assert(key@ =~= line@.take(cut as int));
        let value = if cut < line.len() {
            string_of(&line, cut + 1, line.len())
        } else {
            String::new()
        };
        assert(value@ =~= value_of(ls[i as int]));
        let url_ok = is_valid_url(value.as_str());
        let ghost prev = ls.take(i as int);
        let ghost next = ls.take(i + 1);
        assert(next.drop_last() =~= prev);
        assert(next.last() == ls[i as int]);
        match update_conf(cur, key.as_str(), value, url_ok) {
            Ok(c) => {
                cur = c;
            },
            Err(e) => {
                assert(key_of(ls[i as int]) == "url"@ && !url_parses(value_of(ls[i as int])));
                assert(has_bad_url(ls));
                return Err(e);
            },
        }
        assert(!has_bad_url(next)) by {
            assert forall|j: int| 0 <= j < next.len() implies !(key_of(#[trigger] next[j]) == "url"@
                && !url_parses(value_of(next[j]))) by {
                if j < i {
                    assert(next[j] == prev[j]);
                }
            }
        }
        i += 1;
    }
    assert(ls.take(n as int) =~= ls);
    Ok(cur)
}


/// The line that stores an optional setting, empty where it is unset.
pub open spec fn setting_line(key: Seq<char>, value: Option<Seq<char>>) -> Seq<char> {
    match value {
        Some(v) => key + "="@ + v + "\n"@,
        None => Seq::empty(),
    }
}

/// The configuration text that stores `url` and, where given, the username and
/// the password, one `key=value` line each.
pub open spec fn conf_text_of(url: Seq<char>, username: Option<Seq<char>>, password: Option<Seq<char>>) -> Seq<char> {
    "url"@ + "="@ + url + "\n"@ + setting_line("username"@, username) + setting_line(
        "password"@,
        password,
    )
}

fn append_setting(text: &mut String, key: &str, value: &Option<String>)
    ensures
        final(text)@ == old(text)@ + setting_line(key@, opt_view(*value)),
{
    match value {
        Some(v) => {
            text.append(key);
            text.append("=");
            text.append(v.as_str());
            text.append("\n");
        },
        None => {
            assert(old(text)@ + Seq::<char>::empty() =~= old(text)@);
        },
    }
}

/// Writes the configuration text that stores the given settings.
pub fn conf_text(url: &str, username: &Option<String>, password: &Option<String>) -> (r: String)
    ensures
        r@ == conf_text_of(url@, opt_view(*username), opt_view(*password)),
{
    let mut text = String::from_str("url");
    text.append("=");
    text.append(url);
    text.append("\n");
    append_setting(&mut text, "username", username);
    append_setting(&mut text, "password", password);
    text
}

} // verus!
