//! What the pages of a repository share.

use vstd::prelude::*;
use vstd::utf8::*;
use crate::html::{self, attr, page, url_path};
use crate::http::{self, response_head, Request, RequestView};
use crate::numbers::{self, signed_decimal_of};
use crate::repo::Repo;
use crate::security::{self, safe_host, safe_http_clone_url};
use crate::text::{self, same, trimmed_end, Class};

verus! {

/// A response that holds an HTML text.
pub open spec fn html_text(status: u16, reason: Seq<char>, body: Seq<char>) -> Seq<char> {
    http::head_text(status, reason, "text/html; charset=utf-8"@, encode_utf8(body).len()) + body
}

/// A response that holds the page with that title and body.
pub open spec fn page_response(
    status: u16,
    reason: Seq<char>,
    title: Seq<char>,
    body: Seq<char>,
) -> Seq<char> {
    html_text(status, reason, html::page_text(title, body))
}

/// A response that holds an HTML text.
pub fn html_response(status: u16, reason: &str, body: String) -> (r: String)
    ensures
        r@ == html_text(status, reason@, body@),
{
    let mut out = response_head(
        status,
        reason,
        "text/html; charset=utf-8",
        body.as_str().as_bytes().len(),
    );
    out.append(body.as_str());
    out
}

/// The page that says in one heading what went wrong.
pub(crate) fn notice(status: u16, reason: &str, title: &str, body: &str) -> (r: String)
    ensures
        r@ == page_response(status, reason@, title@, body@),
{
    html_response(status, reason, page(title, body))
}

/// The value of a query key, or the default when the request has none.
pub open spec fn query_or(req: RequestView, key: Seq<char>, default: Seq<char>) -> Seq<char> {
    if req.query.dom().contains(key) {
        req.query[key]
    } else {
        default
    }
}

/// The value of a query key, or the default when the request has none.
pub fn query_value<'a>(req: &'a Request, key: &str, default: &'a str) -> (r: &'a str)
    ensures
        r@ == query_or(req@, key@, default@),
{
    match req.query(key) {
        Some(v) => v,
        None => default,
    }
}

/// Where the pages of a repository live.
pub open spec fn base_path(name: Seq<char>) -> Seq<char> {
    "/repo/"@ + html::path_encoded(name)
}

pub(crate) fn base_of(name: &str) -> (r: String)
    ensures
        r@ == base_path(name@),
{
    let mut out: String = "/repo/".to_owned();
    let encoded = url_path(name);
    out.append(encoded.as_str());
    out
}

/// A link of the navigation bar.
pub open spec fn nav_item(base: Seq<char>, label: Seq<char>, active: Seq<char>) -> Seq<char> {
    let link = "<a href=\""@ + html::escaped_attr(base + "/"@ + label) + "\">"@ + label + "</a>"@;
    if active == label {
        " | "@ + "<strong>"@ + link + "</strong>"@
    } else {
        " | "@ + link
    }
}

fn append_nav_item(nav: &mut String, base: &str, label: &str, active: &str)
    ensures
        final(nav)@ == old(nav)@ + nav_item(base@, label@, active@),
{
    let mut target: String = base.to_owned();
    target.append("/");
    target.append(label);
    let mut link: String = "<a href=\"".to_owned();
    let quoted = attr(target.as_str());
    link.append(quoted.as_str());
    link.append("\">");
    link.append(label);
    link.append("</a>");
    let mut item: String = " | ".to_owned();
    if same(active, label) {
        item.append("<strong>");
        item.append(link.as_str());
        item.append("</strong>");
    } else {
        item.append(link.as_str());
    }
    nav.append(item.as_str());
}

/// The navigation bar of a repository's pages.
pub open spec fn nav_text(name: Seq<char>, active: Seq<char>) -> Seq<char> {
    let base = base_path(name);
    "<nav class=\"topbar\"><div><a href=\"/\">index</a>"@ + nav_item(base, "summary"@, active)
        + nav_item(base, "log"@, active) + nav_item(base, "tree"@, active)
        + "</div><form class=\"search\" method=\"get\" action=\""@ + html::escaped_attr(
        base + "/search"@,
    ) + "\"><input name=\"q\" type=\"search\" placeholder=\"search commits\"><button>Search</button></form></nav>"@
}

/// The navigation bar of a repository's pages.
pub fn repo_nav(repo: &Repo, active: &str) -> (r: String)
    ensures
        r@ == nav_text(repo@.name, active@),
{
    let base = base_of(repo.name());
    let mut nav: String = "<nav class=\"topbar\"><div><a href=\"/\">index</a>".to_owned();
    append_nav_item(&mut nav, base.as_str(), "summary", active);
    append_nav_item(&mut nav, base.as_str(), "log", active);
    append_nav_item(&mut nav, base.as_str(), "tree", active);
    nav.append("</div><form class=\"search\" method=\"get\" action=\"");
    let mut search: String = base.as_str().to_owned();
    search.append("/search");
    let quoted = attr(search.as_str());
    nav.append(quoted.as_str());
    nav.append(
        "\"><input name=\"q\" type=\"search\" placeholder=\"search commits\"><button>Search</button></form></nav>",
    );
    nav
}

/// What is shown in place of a clone command that cannot be given.
pub const NO_CLONE_URL: &'static str = "clone URL not configured";

/// The command that clones a repository: from the public base when one is set,
/// else from the host that the request names.
pub open spec fn clone_command(
    public_base: Option<Seq<char>>,
    host: Option<Seq<char>>,
    name: Seq<char>,
) -> Seq<char> {
    match public_base {
        Some(base) => {
            let url = text::trim_end(base, Class::Only('/')) + base_path(name);
            if security::http_url_ok(url) {
                "git clone "@ + url
            } else {
                NO_CLONE_URL@
            }
        },
        None => match host {
            Some(h) => if security::host_ok(h) {
                "git clone http://"@ + h + base_path(name)
            } else {
                NO_CLONE_URL@
            },
            None => NO_CLONE_URL@,
        },
    }
}

/// The command that clones a repository.
pub fn public_clone_command(public_base: Option<&str>, repo: &Repo, req: &Request) -> (r: String)
    ensures
        r@ == clone_command(
            match public_base {
                Some(b) => Some(b@),
                None => None,
            },
            req@.host,
            repo@.name,
        ),
{
    let base = base_of(repo.name());
    match public_base {
        Some(public) => {
            let mut url: String = trimmed_end(public, Class::Only('/'));
            url.append(base.as_str());
            if safe_http_clone_url(url.as_str()) {
                let mut out: String = "git clone ".to_owned();
                out.append(url.as_str());
                out
            } else {
                NO_CLONE_URL.to_owned()
            }
        },
        None => {
            if let Some(host) = req.host() {
                if safe_host(host) {
                    let mut out: String = "git clone http://".to_owned();
                    out.append(host);
                    out.append(base.as_str());
                    return out;
                }
            }
            NO_CLONE_URL.to_owned()
        },
    }
}

/// A link to a commit's page.
pub open spec fn commit_link(name: Seq<char>, id: Seq<char>, label: Seq<char>) -> Seq<char> {
    "<a href=\"/repo/"@ + html::escaped_attr(html::path_encoded(name)) + "/commit?id="@
        + html::escaped_attr(id) + "\">"@ + html::escaped_text(label) + "</a>"@
}

pub(crate) fn commit_anchor(name: &str, id: &str, label: &str) -> (r: String)
    ensures
        r@ == commit_link(name@, id@, label@),
{
    let mut out: String = "<a href=\"/repo/".to_owned();
    let encoded = url_path(name);
    let quoted = attr(encoded.as_str());
    out.append(quoted.as_str());
    out.append("/commit?id=");
    let quoted_id = attr(id);
    out.append(quoted_id.as_str());
    out.append("\">");
    let shown = html::text(label);
    out.append(shown.as_str());
    out.append("</a>");
    out
}

/// Append a text in HTML's escapes.
pub(crate) fn append_text(out: &mut String, s: &str)
    ensures
        final(out)@ == old(out)@ + html::escaped_text(s@),
{
    let shown = html::text(s);
    out.append(shown.as_str());
}

/// Append a number.
pub(crate) fn append_time(out: &mut String, n: i64)
    ensures
        final(out)@ == old(out)@ + html::escaped_text(numbers::signed_decimal(n as int)),
{
    let digits = signed_decimal_of(n);
    append_text(out, digits.as_str());
}

}
