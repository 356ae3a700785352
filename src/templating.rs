//! What the functions offered to templates decide: the page a template asks
//! for, the static file it links to, the local image it embeds, and the
//! order of feed entries.
use crate::order::{key_le, key_view, sort_indices};
use crate::paths::{trim_leading_slashes, trim_slashes};
use crate::site::{has_path, DynamicPage, Page, PageModel, Site, StaticPage};
use vstd::prelude::*;
use vstd::string::StrSliceExecFns;
use vstd::string::StringExecFns;

verus! {

fn text_or(v: Option<String>, default: &str) -> (r: String)
    ensures
        r@ == match v {
            Some(s) => s@,
            None => default@,
        },
{
    match v {
        Some(s) => s,
        None => String::from_str(default),
    }
}

/// The page a template registers: each argument it leaves out takes its
/// default (path `/`, template `index.html`, empty title and description,
/// page number 0), and the page has no content yet.
pub fn requested_page(
    path: Option<String>,
    template: Option<String>,
    title: Option<String>,
    description: Option<String>,
    page_num: Option<usize>,
) -> (r: DynamicPage)
    ensures
        r.path@ == (match path {
            Some(s) => s@,
            None => "/"@,
        }),
        r.template@ == (match template {
            Some(s) => s@,
            None => "index.html"@,
        }),
        r.title@ == (match title {
            Some(s) => s@,
            None => ""@,
        }),
        r.description@ == (match description {
            Some(s) => s@,
            None => ""@,
        }),
        r.page_num == (match page_num {
            Some(n) => n,
            None => 0,
        }),
        r.content is None,
{
    DynamicPage {
        path: text_or(path, "/"),
        template: text_or(template, "index.html"),
        title: text_or(title, ""),
        description: text_or(description, ""),
        content: None,
        page_num: match page_num {
            Some(n) => n,
            None => 0,
        },
    }
}

/// Why a template's link to a static file cannot be made.
#[derive(Debug, Clone, PartialEq)]
pub enum StaticFileError {
    /// No page has this path.
    NotFound(String),
    /// The page at this path is not a static file.
    NotStatic(String),
    /// The static page at this path has no source file to checksum.
    NoSource(String),
}

/// The source file of the static page that a template links to as `path`
/// (its leading `/` left out of the lookup).
pub fn static_file_source(site: &Site, path: &str) -> (r: Result<String, StaticFileError>)
    requires
        site.wf(),
    ensures
        r is Err && r->Err_0 is NotFound <==> !has_path(site@, trim_slashes(path@)),
        r matches Ok(src) ==> exists|i: int|
            0 <= i < site@.len() && site@[i].path() == trim_slashes(path@) && (site@[i] matches PageModel::Static {
                source: Some(s),
                ..
            } && s == src@),
        r matches Err(StaticFileError::NotStatic(p)) ==> p@ == path@ && exists|i: int|
            0 <= i < site@.len() && site@[i].path() == trim_slashes(path@) && !(site@[i] is Static),
        r matches Err(StaticFileError::NoSource(p)) ==> p@ == path@ && exists|i: int|
            0 <= i < site@.len() && site@[i].path() == trim_slashes(path@) && (site@[i] matches PageModel::Static {
                source: None,
                ..
            }),
{
    let key = trim_leading_slashes(path);
    match site.get_page(key.as_str()) {
        None => Err(StaticFileError::NotFound(String::from_str(path))),
        Some(Page::Static(p)) => match p.source {
            Some(s) => Ok(s),
            None => Err(StaticFileError::NoSource(String::from_str(path))),
        },
        Some(_) => Err(StaticFileError::NotStatic(String::from_str(path))),
    }
}

/// `path?cb=<checksum>`: a link that changes whenever the file does.
pub fn cache_busted(path: &str, checksum: &str) -> (r: String)
    ensures
        r@ == path@ + "?cb="@ + checksum@,
{
    let mut r = String::from_str(path);
    r.append("?cb=");
    r.append(checksum);
    r
}

/// `dir` joined with the relative path `rest`.
pub open spec fn joined_path(dir: Seq<char>, rest: Seq<char>) -> Seq<char> {
    if dir.len() > 0 && dir.last() == '/' {
        dir + rest
    } else {
        dir + seq!['/'] + rest
    }
}

/// The static page that serves a local image a template embeds as `src`
/// (an absolute path of the site): copied from that path below the project
/// folder `root`.
pub fn local_image_page(src: &str, root: &str) -> (r: StaticPage)
    ensures
        r.destination@ == src@,
        r.source matches Some(s) && s@ == joined_path(root@, trim_slashes(src@)),
        r.fallback is None,
{
    let rest = trim_leading_slashes(src);
    let mut source = String::from_str(root);
    let n = root.unicode_len();
    if !(n > 0 && root.get_char(n - 1) == '/') {
        crate::paths::push_char(&mut source, '/');
    }
    source.append(rest.as_str());
    StaticPage { destination: String::from_str(src), source: Some(source), fallback: None }
}

/// The order in which feed entries published at `dates` (nanoseconds since
/// the Unix epoch) are listed: positions into `dates`, newest first, entries
/// published at the same time in their given order.
pub fn feed_order(dates: &Vec<i64>) -> (r: Vec<usize>)
    ensures
        r@.len() == dates@.len(),
        r@.no_duplicates(),
        forall|i: int| 0 <= i < r@.len() ==> r@[i] < dates@.len(),
        forall|a: int, b: int| 0 <= a < b < r@.len() ==> dates@[#[trigger] r@[a] as int] >= dates@[#[trigger] r@[b] as int],
{
    let mut keys: Vec<(i128, String)> = Vec::new();
    let mut i: usize = 0;
    while i < dates.len()
        invariant
            0 <= i <= dates@.len(),
            keys@.len() == i,
            forall|k: int| 0 <= k < i ==> (#[trigger] keys@[k]).0 == dates@[k] as i128 && keys@[k].1@ == Seq::<char>::empty(),
        decreases dates@.len() - i,
    {
        keys.push((dates[i] as i128, String::new()));
        i = i + 1;
    }
    let r = sort_indices(&keys);
    proof {
        assert forall|a: int, b: int| 0 <= a < b < r@.len() implies dates@[#[trigger] r@[a] as int] >= dates@[#[trigger] r@[b] as int] by {
            assert(key_le(key_view(keys@[r@[a] as int]), key_view(keys@[r@[b] as int])));
        }
    }
    r
}

} // verus!
