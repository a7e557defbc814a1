//! The 「关于」 block of the settings sheet: the app's version, and the
//! rule for which links it may hand to the browser.

use vstd::prelude::*;

use crate::error::AppError;
use crate::text::{
    chars_of, has_prefix, is_control, is_control_char, is_whitespace, is_ws, push_str,
    starts_with_at, string_of,
};

verus! {

/// What the 关于 block shows.
#[derive(Debug, Clone, PartialEq, Eq)]
pub struct AppInfo {
    /// Package version of the app, e.g. `0.1.0`.
    pub version: String,
}

/// What follows the scheme of an `https://` or `http://` URL.
pub open spec fn after_scheme(url: Seq<char>) -> Option<Seq<char>> {
    if has_prefix(url, "https://"@) {
        Some(url.skip("https://"@.len() as int))
    } else if has_prefix(url, "http://"@) {
        Some(url.skip("http://"@.len() as int))
    } else {
        None
    }
}

/// No control character and no white space anywhere in `s`.
pub open spec fn printable(s: Seq<char>) -> bool {
    forall|i: int| 0 <= i < s.len() ==> !is_control(#[trigger] s[i]) && !is_ws(s[i])
}

/// An absolute http(s) URL with a host and no control characters or
/// white space.
pub open spec fn web_url(url: Seq<char>) -> bool {
    match after_scheme(url) {
        Some(rest) => rest.len() > 0 && rest[0] != '/' && printable(url),
        None => false,
    }
}

/// Whether every character of `v` is printable.
fn all_printable(v: &Vec<char>) -> (b: bool)
    ensures
        b == printable(v@),
{
    let mut i: usize = 0;
    while i < v.len()
        invariant
            i <= v@.len(),
            forall|j: int| 0 <= j < i ==> !is_control(#[trigger] v@[j]) && !is_ws(v@[j]),
        decreases v@.len() - i,
    {
        if is_control_char(v[i]) || is_whitespace(v[i]) {
            return false;
        }
        i = i + 1;
    }
    true
}

/// True for an absolute http(s) URL with a host and no control characters
/// or white space: the only thing the 关于 links may open.
pub fn is_web_url(url: &str) -> (b: bool)
    ensures
        b == web_url(url@),
{
    let v = chars_of(url);
    assert(v@.subrange(0, v@.len() as int) =~= v@);
    let from: usize = if starts_with_at(&v, 0, "https://") {
        proof {
            reveal_strlit("https://");
        }
        8
    } else if starts_with_at(&v, 0, "http://") {
        proof {
            reveal_strlit("http://");
        }
        7
    } else {
        return false;
    };
    from < v.len() && v[from] != '/' && all_printable(&v)
}

/// The refusal `open_url` answers a link that is not a web URL with.
pub open spec fn refusal_text(url: Seq<char>) -> Seq<char> {
    "只能打开 http(s) 链接: "@ + url
}

/// What `open_url` may hand to the browser: `url` itself when it is a web
/// URL, else the error the window shows.
pub fn check_web_url(url: &str) -> (r: Result<String, AppError>)
    ensures
        web_url(url@) ==> (r matches Ok(s) && s@ == url@),
        !web_url(url@) ==> (r matches Err(e) && e.message@ == refusal_text(url@)),
{
    if is_web_url(url) {
        Ok(string_of(url))
    } else {
        let mut m = string_of("只能打开 http(s) 链接: ");
        push_str(&mut m, url);
        Err(AppError { message: m })
    }
}

} // verus!
