//! The page registry of a site: every output artifact under its destination
//! path, registered once (the first registration wins), with the content of
//! dynamic pages and feeds filled in exactly once while rendering.
use crate::paths::{create_destination_path, relative_path, starts_with, trim_leading_slashes, trim_slashes};
use vstd::prelude::*;
use vstd::string::StrSliceExecFns;
use vstd::string::StringExecFns;

verus! {

/// A page rendered from a template.
#[derive(Debug, Clone, PartialEq)]
pub struct DynamicPage {
    pub path: String,
    pub template: String,
    pub title: String,
    pub description: String,
    pub content: Option<String>,
    pub page_num: usize,
}

/// A file copied from `source`, or, where there is none, the literal
/// `fallback` written out.
#[derive(Debug, Clone, PartialEq)]
pub struct StaticPage {
    pub destination: String,
    pub source: Option<String>,
    pub fallback: Option<String>,
}

/// A syndication feed, filled in once every dynamic page has content.
#[derive(Debug, Clone, PartialEq)]
pub struct Feed {
    pub path: String,
    pub content: Option<String>,
    pub typ: FeedType,
}

#[derive(Debug, Clone, Copy, PartialEq, Eq, Structural)]
pub enum FeedType {
    Json,
    Atom,
}

#[derive(Debug, Clone, PartialEq)]
pub enum Page {
    Static(StaticPage),
    Dynamic(DynamicPage),
    Feed(Feed),
}

/// A page as plain values.
pub enum PageModel {
    Static { destination: Seq<char>, source: Option<Seq<char>>, fallback: Option<Seq<char>> },
    Dynamic {
        path: Seq<char>,
        template: Seq<char>,
        title: Seq<char>,
        description: Seq<char>,
        content: Option<Seq<char>>,
        page_num: nat,
    },
    Feed { path: Seq<char>, content: Option<Seq<char>>, typ: FeedType },
}

pub open spec fn opt_view(o: Option<String>) -> Option<Seq<char>> {
    match o {
        Some(s) => Some(s@),
        None => None,
    }
}

impl View for StaticPage {
    type V = PageModel;

    open spec fn view(&self) -> PageModel {
        PageModel::Static {
            destination: self.destination@,
            source: opt_view(self.source),
            fallback: opt_view(self.fallback),
        }
    }
}

impl View for DynamicPage {
    type V = PageModel;

    open spec fn view(&self) -> PageModel {
        PageModel::Dynamic {
            path: self.path@,
            template: self.template@,
            title: self.title@,
            description: self.description@,
            content: opt_view(self.content),
            page_num: self.page_num as nat,
        }
    }
}

impl View for Feed {
    type V = PageModel;

    open spec fn view(&self) -> PageModel {
        PageModel::Feed { path: self.path@, content: opt_view(self.content), typ: self.typ }
    }
}

impl View for Page {
    type V = PageModel;

    open spec fn view(&self) -> PageModel {
        match self {
            Page::Static(p) => p@,
            Page::Dynamic(p) => p@,
            Page::Feed(p) => p@,
        }
    }
}

impl PageModel {
    /// The destination path, which identifies the page in a site.
    pub open spec fn path(self) -> Seq<char> {
        match self {
            PageModel::Static { destination, .. } => destination,
            PageModel::Dynamic { path, .. } => path,
            PageModel::Feed { path, .. } => path,
        }
    }

    pub open spec fn is_unrendered_dynamic(self) -> bool {
        self matches PageModel::Dynamic { content: None, .. }
    }

    pub open spec fn is_unrendered_feed(self) -> bool {
        self matches PageModel::Feed { content: None, .. }
    }

    /// The page with its content set; a static page has none to set.
    pub open spec fn with_content(self, c: Seq<char>) -> PageModel {
        match self {
            PageModel::Static { .. } => self,
            PageModel::Dynamic { path, template, title, description, page_num, .. } => {
                PageModel::Dynamic {
                    path,
                    template,
                    title,
                    description,
                    content: Some(c),
                    page_num,
                }
            },
            PageModel::Feed { path, typ, .. } => PageModel::Feed { path, content: Some(c), typ },
        }
    }

    /// Where the page is written, relative to the output root: `/` is
    /// `index.html`; any other path loses its leading `/`.
    pub open spec fn output_path(self) -> Seq<char> {
        match self {
            PageModel::Dynamic { path, .. } => if path == "/"@ {
                "index.html"@
            } else {
                trim_slashes(path)
            },
            _ => trim_slashes(self.path()),
        }
    }
}

fn copy_opt(o: &Option<String>) -> (r: Option<String>)
    ensures
        r == *o,
{
    match o {
        Some(s) => Some(s.clone()),
        None => None,
    }
}

impl StaticPage {
    fn copy(&self) -> (r: StaticPage)
        ensures
            r == *self,
    {
        StaticPage {
            destination: self.destination.clone(),
            source: copy_opt(&self.source),
            fallback: copy_opt(&self.fallback),
        }
    }
}

impl DynamicPage {
    fn copy(&self) -> (r: DynamicPage)
        ensures
            r == *self,
    {
        DynamicPage {
            path: self.path.clone(),
            template: self.template.clone(),
            title: self.title.clone(),
            description: self.description.clone(),
            content: copy_opt(&self.content),
            page_num: self.page_num,
        }
    }
}

impl Feed {
    fn copy(&self) -> (r: Feed)
        ensures
            r == *self,
    {
        Feed { path: self.path.clone(), content: copy_opt(&self.content), typ: self.typ }
    }
}

fn is_root(s: &str) -> (r: bool)
    ensures
        r == (s@ == "/"@),
{
    proof {
        reveal_strlit("/");
    }
    let r = s.unicode_len() == 1 && s.get_char(0) == '/';
    proof {
        if r {
            assert(s@ =~= "/"@);
        }
    }
    r
}

impl Page {
    fn copy(&self) -> (r: Page)
        ensures
            r == *self,
    {
        match self {
            Page::Static(p) => Page::Static(p.copy()),
            Page::Dynamic(p) => Page::Dynamic(p.copy()),
            Page::Feed(p) => Page::Feed(p.copy()),
        }
    }

    /// The destination path of the page.
    pub fn get_path(&self) -> (r: String)
        ensures
            r@ == self@.path(),
    {
        match self {
            Page::Static(p) => p.destination.clone(),
            Page::Dynamic(p) => p.path.clone(),
            Page::Feed(p) => p.path.clone(),
        }
    }

    /// Where the page is written, relative to the output root.
    pub fn output_path(&self) -> (r: String)
        ensures
            r@ == self@.output_path(),
    {
        match self {
            Page::Dynamic(p) => {
                if is_root(p.path.as_str()) {
                    proof {
                        reveal_strlit("index.html");
                    }
                    String::from_str("index.html")
                } else {
                    trim_leading_slashes(p.path.as_str())
                }
            },
            Page::Static(p) => trim_leading_slashes(p.destination.as_str()),
            Page::Feed(p) => trim_leading_slashes(p.path.as_str()),
        }
    }
}

impl From<StaticPage> for Page {
    fn from(value: StaticPage) -> (r: Page)
        ensures
            r == Page::Static(value),
    {
        Page::Static(value)
    }
}

impl vstd::std_specs::convert::FromSpecImpl<StaticPage> for Page {
    open spec fn obeys_from_spec() -> bool {
        true
    }

    open spec fn from_spec(v: StaticPage) -> Page {
        Page::Static(v)
    }
}

impl From<DynamicPage> for Page {
    fn from(value: DynamicPage) -> (r: Page)
        ensures
            r == Page::Dynamic(value),
    {
        Page::Dynamic(value)
    }
}

impl vstd::std_specs::convert::FromSpecImpl<DynamicPage> for Page {
    open spec fn obeys_from_spec() -> bool {
        true
    }

    open spec fn from_spec(v: DynamicPage) -> Page {
        Page::Dynamic(v)
    }
}

impl From<Feed> for Page {
    fn from(value: Feed) -> (r: Page)
        ensures
            r == Page::Feed(value),
    {
        Page::Feed(value)
    }
}

impl vstd::std_specs::convert::FromSpecImpl<Feed> for Page {
    open spec fn obeys_from_spec() -> bool {
        true
    }

    open spec fn from_spec(v: Feed) -> Page {
        Page::Feed(v)
    }
}

/// The feed type a word names: `json` or `atom`.
pub open spec fn feed_type_of(s: Seq<char>) -> Option<FeedType> {
    if s == "json"@ {
        Some(FeedType::Json)
    } else if s == "atom"@ {
        Some(FeedType::Atom)
    } else {
        None
    }
}

fn equals_str(a: &str, b: &str) -> (r: bool)
    ensures
        r == (a@ == b@),
{
    let r = a.unicode_len() == b.unicode_len() && starts_with(a, b);
    proof {
        if r {
            assert(a@ =~= b@);
        }
        if a@ == b@ {
            assert(b@.is_prefix_of(a@));
        }
    }
    r
}

impl FeedType {
    /// The feed type named by `s`, if it names one.
    pub fn parse(s: &str) -> (r: Option<FeedType>)
        ensures
            r == feed_type_of(s@),
    {
        if equals_str(s, "json") {
            Some(FeedType::Json)
        } else if equals_str(s, "atom") {
            Some(FeedType::Atom)
        } else {
            None
        }
    }
}

/// `json` reads as a JSON feed; any other word as an Atom feed. Use
/// `FeedType::parse` to tell an unknown word apart.
impl From<&str> for FeedType {
    fn from(value: &str) -> (r: FeedType)
        ensures
            r == (if value@ == "json"@ { FeedType::Json } else { FeedType::Atom }),
    {
        match FeedType::parse(value) {
            Some(t) => t,
            None => FeedType::Atom,
        }
    }
}

impl vstd::std_specs::convert::FromSpecImpl<&str> for FeedType {
    open spec fn obeys_from_spec() -> bool {
        true
    }

    open spec fn from_spec(v: &str) -> FeedType {
        if v@ == "json"@ {
            FeedType::Json
        } else {
            FeedType::Atom
        }
    }
}

/// Relies on `ToString` for `Arc<str>`: a copy of the text it shares.
#[verifier::external_body]
fn shared_text(value: &std::sync::Arc<str>) -> String {
    value.to_string()
}

/// Reads the shared text as `From<&str>` does.
impl From<std::sync::Arc<str>> for FeedType {
    fn from(value: std::sync::Arc<str>) -> FeedType {
        let text = shared_text(&value);
        FeedType::from(text.as_str())
    }
}

impl vstd::std_specs::convert::FromSpecImpl<std::sync::Arc<str>> for FeedType {
    open spec fn obeys_from_spec() -> bool {
        false
    }

    open spec fn from_spec(v: std::sync::Arc<str>) -> FeedType {
        FeedType::Atom
    }
}

/// What writing a page out takes, relative to the output root.
#[derive(Debug, Clone, PartialEq)]
pub enum FlushOp {
    /// Copy the file `source` to `destination`.
    Copy { source: String, destination: String },
    /// Write `content` to `destination`.
    Write { destination: String, content: String },
}

pub enum FlushModel {
    Copy { source: Seq<char>, destination: Seq<char> },
    Write { destination: Seq<char>, content: Seq<char> },
}

impl View for FlushOp {
    type V = FlushModel;

    open spec fn view(&self) -> FlushModel {
        match self {
            FlushOp::Copy { source, destination } => FlushModel::Copy {
                source: source@,
                destination: destination@,
            },
            FlushOp::Write { destination, content } => FlushModel::Write {
                destination: destination@,
                content: content@,
            },
        }
    }
}

/// Why a site could not be built or written.
#[derive(Debug, Clone, PartialEq)]
pub enum SiteError {
    /// A static page at this destination has neither a source nor a fallback.
    MissingSource(String),
    /// This file does not lie under the directory it was listed from.
    OutsideRoot(String),
}

impl PageModel {
    /// A static page with neither a source nor a fallback.
    pub open spec fn is_unsourced(self) -> bool {
        self matches PageModel::Static { source: None, fallback: None, .. }
    }

    /// What writing the page out takes: static pages copy their source, or
    /// write their fallback where there is none; dynamic pages and feeds
    /// write their content, and nothing while they have none.
    pub open spec fn flush(self) -> Option<FlushModel> {
        match self {
            PageModel::Static { source, fallback, .. } => match source {
                Some(src) => Some(FlushModel::Copy { source: src, destination: self.output_path() }),
                None => match fallback {
                    Some(f) => Some(FlushModel::Write { destination: self.output_path(), content: f }),
                    None => None,
                },
            },
            PageModel::Dynamic { content, .. } => match content {
                Some(c) => Some(FlushModel::Write { destination: self.output_path(), content: c }),
                None => None,
            },
            PageModel::Feed { content, .. } => match content {
                Some(c) => Some(FlushModel::Write { destination: self.output_path(), content: c }),
                None => None,
            },
        }
    }
}

/// The writes for `pages`, in order.
pub open spec fn flush_plan(pages: Seq<PageModel>) -> Seq<FlushModel>
    decreases pages.len(),
{
    if pages.len() == 0 {
        Seq::empty()
    } else {
        match pages.last().flush() {
            Some(op) => flush_plan(pages.drop_last()).push(op),
            None => flush_plan(pages.drop_last()),
        }
    }
}

impl Page {
    fn flush(&self) -> (r: Option<FlushOp>)
        ensures
            r is None <==> self@.flush() is None,
            r matches Some(op) ==> self@.flush() == Some(op@),
    {
        match self {
            Page::Static(p) => match &p.source {
                Some(src) => Some(FlushOp::Copy { source: src.clone(), destination: self.output_path() }),
                None => match &p.fallback {
                    Some(f) => Some(FlushOp::Write { destination: self.output_path(), content: f.clone() }),
                    None => None,
                },
            },
            Page::Dynamic(p) => match &p.content {
                Some(c) => Some(FlushOp::Write { destination: self.output_path(), content: c.clone() }),
                None => None,
            },
            Page::Feed(p) => match &p.content {
                Some(c) => Some(FlushOp::Write { destination: self.output_path(), content: c.clone() }),
                None => None,
            },
        }
    }
}

/// Whether a page of `pages` has destination `path`.
pub open spec fn has_path(pages: Seq<PageModel>, path: Seq<char>) -> bool {
    exists|i: int| 0 <= i < pages.len() && #[trigger] pages[i].path() == path
}

/// No two pages share a destination path.
pub open spec fn unique_paths(pages: Seq<PageModel>) -> bool {
    forall|i: int, j: int|
        0 <= i < pages.len() && 0 <= j < pages.len() && i != j ==> #[trigger] pages[i].path()
            != #[trigger] pages[j].path()
}

/// The registry after registering `page`: unchanged where its path is
/// taken, else with the page added last.
pub open spec fn with_page(pages: Seq<PageModel>, page: PageModel) -> Seq<PageModel> {
    if has_path(pages, page.path()) {
        pages
    } else {
        pages.push(page)
    }
}

/// The registry after registering each of `pages` in turn, from empty.
pub open spec fn register_all(pages: Seq<PageModel>) -> Seq<PageModel>
    decreases pages.len(),
{
    if pages.len() == 0 {
        Seq::empty()
    } else {
        with_page(register_all(pages.drop_last()), pages.last())
    }
}

/// The static page that copies `file`, found under the directory `root`.
pub open spec fn static_file_page(root: Seq<char>, file: Seq<char>) -> PageModel {
    PageModel::Static { destination: relative_path(file, root), source: Some(file), fallback: None }
}

/// The static pages that copy `files`, found under `root`.
pub open spec fn static_file_pages(root: Seq<char>, files: Seq<String>) -> Seq<PageModel> {
    files.map_values(|f: String| static_file_page(root, f@))
}

/// The robots policy written where the site has no file of its own.
pub open spec fn robots_page() -> PageModel {
    PageModel::Static {
        destination: "robots.txt"@,
        source: None,
        fallback: Some("User-agent: *\nAllow: /"@),
    }
}

/// A page rendered from `template` at `path`, with no content yet.
pub open spec fn entry_page(path: Seq<char>, template: Seq<char>, title: Seq<char>, description: Seq<char>) -> PageModel {
    PageModel::Dynamic { path, template, title, description, content: None, page_num: 0 }
}

/// What a site is first built from: the static files found under the
/// project's static folder and under the template's, and the site's title
/// and description.
pub struct SiteSources {
    pub dist_folder: String,
    pub static_root: String,
    pub static_files: Vec<String>,
    pub template_static_root: String,
    pub template_static_files: Vec<String>,
    pub title: String,
    pub description: String,
    /// Whether the template has a `404.html`.
    pub has_not_found_template: bool,
}

impl SiteSources {
    /// Every page a fresh site registers, in order: the project's static
    /// files, the template's, the robots policy, the entry page and, where
    /// the template has one, the not-found page.
    pub open spec fn initial_pages(&self) -> Seq<PageModel> {
        let defaults = seq![
            robots_page(),
            entry_page("/"@, "index.html"@, self.title@, self.description@),
        ];
        let not_found = if self.has_not_found_template {
            seq![entry_page("/404.html"@, "404.html"@, self.title@, self.description@)]
        } else {
            Seq::empty()
        };
        static_file_pages(self.static_root@, self.static_files@) + static_file_pages(
            self.template_static_root@,
            self.template_static_files@,
        ) + defaults + not_found
    }

    /// Every listed file lies under the directory it was listed from.
    pub open spec fn files_under_roots(&self) -> bool {
        &&& forall|i: int|
            0 <= i < self.static_files@.len() ==> self.static_root@.is_prefix_of(
                #[trigger] self.static_files@[i]@,
            )
        &&& forall|i: int|
            0 <= i < self.template_static_files@.len() ==> self.template_static_root@.is_prefix_of(
                #[trigger] self.template_static_files@[i]@,
            )
    }
}

/// Registering one more page.
proof fn lemma_register_push(pages: Seq<PageModel>, p: PageModel)
    ensures
        register_all(pages.push(p)) == with_page(register_all(pages), p),
{
    assert(pages.push(p).drop_last() =~= pages);
}

fn all_under(root: &str, files: &Vec<String>) -> (r: Option<usize>)
    ensures
        r is None <==> forall|i: int| 0 <= i < files@.len() ==> root@.is_prefix_of(#[trigger] files@[i]@),
        r matches Some(i) ==> i < files@.len() && !root@.is_prefix_of(files@[i as int]@),
{
    let mut i: usize = 0;
    while i < files.len()
        invariant
            0 <= i <= files@.len(),
            forall|k: int| 0 <= k < i ==> root@.is_prefix_of(#[trigger] files@[k]@),
        decreases files@.len() - i,
    {
        if !starts_with(files[i].as_str(), root) {
            return Some(i);
        }
        i = i + 1;
    }
    None
}

/// Registering a page keeps destination paths unique.
pub proof fn lemma_with_page_unique(pages: Seq<PageModel>, page: PageModel)
    requires
        unique_paths(pages),
    ensures
        unique_paths(with_page(pages, page)),
        has_path(with_page(pages, page), page.path()),
{
    if !has_path(pages, page.path()) {
        let after = pages.push(page);
        assert(after[pages.len() as int].path() == page.path());
        assert forall|i: int, j: int|
            0 <= i < after.len() && 0 <= j < after.len() && i != j implies #[trigger] after[i].path()
                != #[trigger] after[j].path() by {
            if i < pages.len() && j < pages.len() {
                assert(pages[i].path() != pages[j].path());
            } else if i < pages.len() {
                assert(pages[i].path() != page.path());
            } else if j < pages.len() {
                assert(pages[j].path() != page.path());
            }
        }
    }
}

/// Two registrations at one destination path leave exactly one page there:
/// the first one registered, or the page that held the path before both.
pub proof fn lemma_first_registration_wins(pages: Seq<PageModel>, first: PageModel, second: PageModel)
    requires
        unique_paths(pages),
        first.path() == second.path(),
    ensures
        unique_paths(with_page(with_page(pages, first), second)),
        has_path(with_page(with_page(pages, first), second), first.path()),
        !has_path(pages, first.path()) ==> with_page(with_page(pages, first), second) == pages.push(
            first,
        ),
        has_path(pages, first.path()) ==> with_page(with_page(pages, first), second) == pages,
{
    lemma_with_page_unique(pages, first);
    lemma_with_page_unique(with_page(pages, first), second);
}

/// The registry of a site's pages and the folder they are written to.
pub struct Site {
    dist_folder: String,
    pages: Vec<Page>,
}

impl View for Site {
    type V = Seq<PageModel>;

    /// The pages, in order of registration.
    closed spec fn view(&self) -> Seq<PageModel> {
        self.pages@.map_values(|p: Page| p@)
    }
}

impl Site {
    pub closed spec fn wf(&self) -> bool {
        unique_paths(self@)
    }

    pub closed spec fn dist_folder_view(&self) -> Seq<char> {
        self.dist_folder@
    }

    /// An empty site written to `path`.
    pub fn new(path: String) -> (s: Site)
        ensures
            s.wf(),
            s@ == Seq::<PageModel>::empty(),
            s.dist_folder_view() == path@,
    {
        let s = Site { dist_folder: path, pages: Vec::new() };
        assert(s@ =~= Seq::<PageModel>::empty());
        s
    }

    /// The folder the site is written to.
    pub fn dist_folder(&self) -> (r: &str)
        ensures
            r@ == self.dist_folder_view(),
    {
        self.dist_folder.as_str()
    }

    /// The position of the page with destination `path`.
    fn find(&self, path: &str) -> (r: Option<usize>)
        ensures
            r matches Some(i) ==> i < self@.len() && self@[i as int].path() == path@,
            r is None ==> !has_path(self@, path@),
    {
        let mut i: usize = 0;
        while i < self.pages.len()
            invariant
                0 <= i <= self.pages@.len(),
                forall|k: int| 0 <= k < i ==> #[trigger] self@[k].path() != path@,
            decreases self.pages@.len() - i,
        {
            let p = self.pages[i].get_path();
            if equals_str(p.as_str(), path) {
                return Some(i);
            }
            i = i + 1;
        }
        None
    }

    /// Registers `page` unless a page with its destination path is already
    /// there, in which case nothing changes.
    pub fn add_page(&mut self, page: Page)
        requires
            old(self).wf(),
        ensures
            final(self).wf(),
            final(self)@ == with_page(old(self)@, page@),
            final(self).dist_folder_view() == old(self).dist_folder_view(),
    {
        let path = page.get_path();
        match self.find(path.as_str()) {
            Some(_) => {},
            None => {
                self.pages.push(page);
                assert(self@ =~= old(self)@.push(page@));
            },
        }
    }

    /// The page with destination `path`, if there is one.
    pub fn get_page(&self, path: &str) -> (r: Option<Page>)
        requires
            self.wf(),
        ensures
            r is None <==> !has_path(self@, path@),
            r matches Some(p) ==> p@.path() == path@ && exists|i: int|
                0 <= i < self@.len() && self@[i] == p@,
    {
        match self.find(path) {
            Some(i) => Some(self.pages[i].copy()),
            None => None,
        }
    }

    /// A dynamic page that has no content yet: the first registered one, or
    /// `None` where every dynamic page has content.
    pub fn next_unrendered_dynamic_page(&self) -> (r: Option<DynamicPage>)
        ensures
            r is None <==> forall|i: int| 0 <= i < self@.len() ==> !(#[trigger] self@[i]).is_unrendered_dynamic(),
            r matches Some(d) ==> d.content is None && exists|i: int|
                0 <= i < self@.len() && self@[i] == d@ && forall|k: int|
                    0 <= k < i ==> !(#[trigger] self@[k]).is_unrendered_dynamic(),
    {
        let mut i: usize = 0;
        while i < self.pages.len()
            invariant
                0 <= i <= self.pages@.len(),
                forall|k: int| 0 <= k < i ==> !(#[trigger] self@[k]).is_unrendered_dynamic(),
            decreases self.pages@.len() - i,
        {
            if let Page::Dynamic(d) = &self.pages[i] {
                if d.content.is_none() {
                    assert(self@[i as int] == self.pages@[i as int]@);
                    return Some(d.copy());
                }
            }
            assert(self@[i as int] == self.pages@[i as int]@);
            i = i + 1;
        }
        None
    }

    /// A feed that has no content yet: the first registered one, or `None`
    /// where every feed has content.
    pub fn next_unrendered_feed(&self) -> (r: Option<Feed>)
        ensures
            r is None <==> forall|i: int| 0 <= i < self@.len() ==> !(#[trigger] self@[i]).is_unrendered_feed(),
            r matches Some(f) ==> f.content is None && exists|i: int|
                0 <= i < self@.len() && self@[i] == f@ && forall|k: int|
                    0 <= k < i ==> !(#[trigger] self@[k]).is_unrendered_feed(),
    {
        let mut i: usize = 0;
        while i < self.pages.len()
            invariant
                0 <= i <= self.pages@.len(),
                forall|k: int| 0 <= k < i ==> !(#[trigger] self@[k]).is_unrendered_feed(),
            decreases self.pages@.len() - i,
        {
            if let Page::Feed(f) = &self.pages[i] {
                if f.content.is_none() {
                    assert(self@[i as int] == self.pages@[i as int]@);
                    return Some(f.copy());
                }
            }
            assert(self@[i as int] == self.pages@[i as int]@);
            i = i + 1;
        }
        None
    }

    /// Registers a static page for each of `files`, found under `root`.
    fn add_static_files(&mut self, root: &str, files: &Vec<String>, Ghost(before): Ghost<Seq<PageModel>>)
        requires
            old(self).wf(),
            old(self)@ == register_all(before),
            forall|i: int| 0 <= i < files@.len() ==> root@.is_prefix_of(#[trigger] files@[i]@),
        ensures
            final(self).wf(),
            final(self)@ == register_all(before + static_file_pages(root@, files@)),
            final(self).dist_folder_view() == old(self).dist_folder_view(),
    {
        let mut i: usize = 0;
        while i < files.len()
            invariant
                0 <= i <= files@.len(),
                self.wf(),
                self.dist_folder_view() == old(self).dist_folder_view(),
                forall|k: int| 0 <= k < files@.len() ==> root@.is_prefix_of(#[trigger] files@[k]@),
                self@ == register_all(before + static_file_pages(root@, files@.take(i as int))),
            decreases files@.len() - i,
        {
            let file = &files[i];
            let page = StaticPage {
                destination: create_destination_path(file.as_str(), root),
                source: Some(file.clone()),
                fallback: None,
            };
            proof {
                let prev = before + static_file_pages(root@, files@.take(i as int));
                assert(before + static_file_pages(root@, files@.take(i + 1)) =~= prev.push(
                    static_file_page(root@, file@),
                ));
                lemma_register_push(prev, static_file_page(root@, file@));
            }
            self.add_page(Page::Static(page));
            i = i + 1;
        }
        assert(files@.take(i as int) =~= files@);
    }

    /// What writing the site out takes, page by page in order of
    /// registration; an error names the first static page with neither a
    /// source nor a fallback.
    pub fn save_plan(&self) -> (r: Result<Vec<FlushOp>, SiteError>)
        ensures
            r is Err <==> exists|i: int| 0 <= i < self@.len() && (#[trigger] self@[i]).is_unsourced(),
            r matches Ok(ops) ==> ops@.map_values(|o: FlushOp| o@) == flush_plan(self@),
            r matches Err(SiteError::MissingSource(d)) ==> exists|i: int|
                0 <= i < self@.len() && (#[trigger] self@[i]).is_unsourced() && self@[i].path() == d@,
            !(r matches Err(SiteError::OutsideRoot(_))),
    {
        let mut ops: Vec<FlushOp> = Vec::new();
        let mut i: usize = 0;
        while i < self.pages.len()
            invariant
                0 <= i <= self.pages@.len(),
                forall|k: int| 0 <= k < i ==> !(#[trigger] self@[k]).is_unsourced(),
                ops@.map_values(|o: FlushOp| o@) == flush_plan(self@.take(i as int)),
            decreases self.pages@.len() - i,
        {
            let page = &self.pages[i];
            assert(self@[i as int] == page@);
            assert(self@.take(i + 1).drop_last() =~= self@.take(i as int));
            match page.flush() {
                Some(op) => {
                    ops.push(op);
                    assert(ops@.map_values(|o: FlushOp| o@) =~= flush_plan(self@.take(i as int)).push(
                        op@,
                    ));
                },
                None => {
                    if let Page::Static(p) = page {
                        return Err(SiteError::MissingSource(p.destination.clone()));
                    }
                },
            }
            i = i + 1;
        }
        assert(self@.take(i as int) =~= self@);
        Ok(ops)
    }

    /// Sets the content of the dynamic page or feed at `path`. Setting it on
    /// a static page, or a second time, is a misuse the caller rules out; a
    /// path with no page leaves the site unchanged.
    pub fn set_page_content(&mut self, path: &str, content: String)
        requires
            old(self).wf(),
            forall|i: int|
                0 <= i < old(self)@.len() && (#[trigger] old(self)@[i]).path() == path@ ==> (
                old(self)@[i].is_unrendered_dynamic() || old(self)@[i].is_unrendered_feed()),
        ensures
            final(self).wf(),
            final(self).dist_folder_view() == old(self).dist_folder_view(),
            !has_path(old(self)@, path@) ==> final(self)@ == old(self)@,
            has_path(old(self)@, path@) ==> exists|i: int|
                0 <= i < old(self)@.len() && old(self)@[i].path() == path@ && final(self)@
                    == old(self)@.update(i, old(self)@[i].with_content(content@)),
    {
        match self.find(path) {
            None => {},
            Some(i) => {
                let updated = match &self.pages[i] {
                    Page::Dynamic(d) => Page::Dynamic(
                        DynamicPage {
                            path: d.path.clone(),
                            template: d.template.clone(),
                            title: d.title.clone(),
                            description: d.description.clone(),
                            content: Some(content),
                            page_num: d.page_num,
                        },
                    ),
                    Page::Feed(f) => Page::Feed(
                        Feed { path: f.path.clone(), content: Some(content), typ: f.typ },
                    ),
                    Page::Static(p) => Page::Static(p.copy()),
                };
                self.pages.set(i, updated);
                proof {
                    assert(self@ =~= old(self)@.update(i as int, old(self)@[i as int].with_content(content@)));
                    assert forall|a: int, b: int|
                        0 <= a < self@.len() && 0 <= b < self@.len() && a != b implies #[trigger] self@[a].path()
                            != #[trigger] self@[b].path() by {
                        assert(old(self)@[a].path() != old(self)@[b].path());
                    }
                }
            },
        }
    }
}

/// A fresh site: the static files of the project first, then the
/// template's (a path already taken keeps its first page), the robots
/// policy, the entry page `/` and, where the template has one, `/404.html`.
/// A file that does not lie under the directory it was listed from is an
/// error.
pub fn init_site(sources: &SiteSources) -> (r: Result<Site, SiteError>)
    ensures
        r is Ok <==> sources.files_under_roots(),
        r matches Ok(site) ==> site.wf() && site@ == register_all(sources.initial_pages())
            && site.dist_folder_view() == sources.dist_folder@,
        r matches Err(e) ==> e is OutsideRoot,
{
    if let Some(i) = all_under(sources.static_root.as_str(), &sources.static_files) {
        return Err(SiteError::OutsideRoot(sources.static_files[i].clone()));
    }
    if let Some(i) = all_under(sources.template_static_root.as_str(), &sources.template_static_files) {
        return Err(SiteError::OutsideRoot(sources.template_static_files[i].clone()));
    }
    let mut site = Site::new(sources.dist_folder.clone());
    assert(register_all(Seq::empty()) == Seq::<PageModel>::empty());
    site.add_static_files(sources.static_root.as_str(), &sources.static_files, Ghost(Seq::empty()));
    let ghost first = Seq::<PageModel>::empty() + static_file_pages(sources.static_root@, sources.static_files@);
    site.add_static_files(sources.template_static_root.as_str(), &sources.template_static_files, Ghost(first));
    let ghost files = first + static_file_pages(sources.template_static_root@, sources.template_static_files@);
    proof {
        reveal_strlit("robots.txt");
        reveal_strlit("User-agent: *\nAllow: /");
        reveal_strlit("/");
        reveal_strlit("index.html");
        reveal_strlit("/404.html");
        reveal_strlit("404.html");
    }
    let robots = StaticPage {
        destination: String::from_str("robots.txt"),
        source: None,
        fallback: Some(String::from_str("User-agent: *\nAllow: /")),
    };
    proof {
        lemma_register_push(files, robots_page());
    }
    site.add_page(Page::Static(robots));
    let index = DynamicPage {
        path: String::from_str("/"),
        template: String::from_str("index.html"),
        title: sources.title.clone(),
        description: sources.description.clone(),
        content: None,
        page_num: 0,
    };
    let ghost entry = entry_page("/"@, "index.html"@, sources.title@, sources.description@);
    proof {
        lemma_register_push(files.push(robots_page()), entry);
    }
    site.add_page(Page::Dynamic(index));
    let ghost registered = files.push(robots_page()).push(entry);
    if sources.has_not_found_template {
        let not_found = DynamicPage {
            path: String::from_str("/404.html"),
            template: String::from_str("404.html"),
            title: sources.title.clone(),
            description: sources.description.clone(),
            content: None,
            page_num: 0,
        };
        proof {
            lemma_register_push(registered, not_found@);
        }
        site.add_page(Page::Dynamic(not_found));
        assert(registered.push(not_found@) =~= sources.initial_pages());
    } else {
        assert(registered =~= sources.initial_pages());
    }
    Ok(site)
}

} // verus!
