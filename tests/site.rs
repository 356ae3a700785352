use bar::site::{
    init_site, DynamicPage, Feed, FeedType, FlushOp, Page, Site, SiteError, SiteSources, StaticPage,
};
use std::sync::Arc;

fn dynamic(path: &str) -> DynamicPage {
    DynamicPage {
        path: path.into(),
        template: "index.html".into(),
        title: "title".into(),
        description: "description".into(),
        content: None,
        page_num: 0,
    }
}

#[test]
fn feed_type_from_string() {
    assert_eq!(FeedType::from("json"), FeedType::Json);
    assert_eq!(FeedType::from("atom"), FeedType::Atom);
}

#[test]
fn feed_type_from_arc_str() {
    assert_eq!(FeedType::from(Arc::<str>::from("json")), FeedType::Json);
    assert_eq!(FeedType::from(Arc::<str>::from("atom")), FeedType::Atom);
}

#[test]
fn feed_type_parse_rejects_unknown_words() {
    assert_eq!(FeedType::parse("json"), Some(FeedType::Json));
    assert_eq!(FeedType::parse("atom"), Some(FeedType::Atom));
    assert_eq!(FeedType::parse("rss"), None);
    assert_eq!(FeedType::parse(""), None);
}

#[test]
fn static_page() {
    let page = StaticPage {
        destination: "/static".into(),
        source: Some("/".into()),
        fallback: None,
    };
    assert_eq!(Page::from(page.clone()), Page::Static(page.clone()));
    assert_eq!(Page::from(page.clone()).get_path(), "/static");
}

#[test]
fn dynamic_page() {
    let page = DynamicPage {
        path: "/".into(),
        template: "index.html".into(),
        title: "title".into(),
        description: "description".into(),
        content: None,
        page_num: 0,
    };
    assert_eq!(Page::from(page.clone()), Page::Dynamic(page.clone()));
    assert_eq!(Page::from(page.clone()).get_path(), "/");
}

#[test]
fn second_registration_at_a_path_is_ignored() {
    let mut site = Site::new("dist".into());
    site.add_page(Page::Static(StaticPage {
        destination: "/a.css".into(),
        source: Some("first.css".into()),
        fallback: None,
    }));
    site.add_page(Page::Static(StaticPage {
        destination: "/a.css".into(),
        source: Some("second.css".into()),
        fallback: None,
    }));
    let plan = site.save_plan().unwrap();
    assert_eq!(plan.len(), 1);
    match &plan[0] {
        FlushOp::Copy { source, destination } => {
            assert_eq!(source, "first.css");
            assert_eq!(destination, "a.css");
        }
        _ => panic!("expected a copy"),
    }
    match site.get_page("/a.css") {
        Some(Page::Static(p)) => assert_eq!(p.source.as_deref(), Some("first.css")),
        _ => panic!("expected the first page"),
    }
}

#[test]
fn render_loop_drains_pages_found_while_rendering() {
    let mut site = Site::new("dist".into());
    site.add_page(Page::Dynamic(dynamic("/")));
    let mut rendered = Vec::new();
    while let Some(page) = site.next_unrendered_dynamic_page() {
        if page.path == "/" {
            site.add_page(Page::Dynamic(dynamic("/tags/a.html")));
            site.add_page(Page::Dynamic(dynamic("/tags/b.html")));
        }
        if page.path == "/tags/a.html" {
            site.add_page(Page::Dynamic(dynamic("/tags/a/2.html")));
            site.add_page(Page::Dynamic(dynamic("/")));
        }
        site.set_page_content(&page.path, format!("<p>{}</p>", page.path));
        rendered.push(page.path);
    }
    assert_eq!(rendered, vec!["/", "/tags/a.html", "/tags/b.html", "/tags/a/2.html"]);
    assert!(site.next_unrendered_dynamic_page().is_none());
}

#[test]
fn feeds_are_found_and_filled_once() {
    let mut site = Site::new("dist".into());
    site.add_page(Page::Feed(Feed {
        path: "/feed.json".into(),
        content: None,
        typ: FeedType::Json,
    }));
    site.add_page(Page::Dynamic(dynamic("/")));
    let feed = site.next_unrendered_feed().unwrap();
    assert_eq!(feed.path, "/feed.json");
    assert_eq!(feed.typ, FeedType::Json);
    site.set_page_content("/feed.json", "{}".into());
    assert!(site.next_unrendered_feed().is_none());
    assert!(site.next_unrendered_dynamic_page().is_some());
}

#[test]
fn set_content_on_a_missing_path_changes_nothing() {
    let mut site = Site::new("dist".into());
    site.add_page(Page::Dynamic(dynamic("/")));
    site.set_page_content("/missing.html", "x".into());
    assert!(site.get_page("/missing.html").is_none());
    assert_eq!(site.next_unrendered_dynamic_page().unwrap().path, "/");
}

#[test]
fn save_plan_maps_paths_to_files() {
    let mut site = Site::new("dist".into());
    site.add_page(Page::Dynamic(dynamic("/")));
    site.add_page(Page::Dynamic(dynamic("/posts/one.html")));
    site.add_page(Page::Dynamic(dynamic("/not-rendered.html")));
    site.add_page(Page::Feed(Feed {
        path: "//atom.xml".into(),
        content: Some("<feed/>".into()),
        typ: FeedType::Atom,
    }));
    site.add_page(Page::Static(StaticPage {
        destination: "robots.txt".into(),
        source: None,
        fallback: Some("User-agent: *\nAllow: /".into()),
    }));
    site.set_page_content("/", "home".into());
    site.set_page_content("/posts/one.html", "one".into());
    let plan = site.save_plan().unwrap();
    assert_eq!(
        plan,
        vec![
            FlushOp::Write { destination: "index.html".into(), content: "home".into() },
            FlushOp::Write { destination: "posts/one.html".into(), content: "one".into() },
            FlushOp::Write { destination: "atom.xml".into(), content: "<feed/>".into() },
            FlushOp::Write {
                destination: "robots.txt".into(),
                content: "User-agent: *\nAllow: /".into()
            },
        ]
    );
    assert_eq!(site.dist_folder(), "dist");
}

#[test]
fn save_plan_rejects_a_static_page_without_source() {
    let mut site = Site::new("dist".into());
    site.add_page(Page::Static(StaticPage {
        destination: "/empty.txt".into(),
        source: None,
        fallback: None,
    }));
    assert_eq!(site.save_plan(), Err(SiteError::MissingSource("/empty.txt".into())));
}

#[test]
fn static_source_wins_over_fallback() {
    let mut site = Site::new("dist".into());
    site.add_page(Page::Static(StaticPage {
        destination: "robots.txt".into(),
        source: Some("/project/static/robots.txt".into()),
        fallback: Some("User-agent: *".into()),
    }));
    assert_eq!(
        site.save_plan().unwrap(),
        vec![FlushOp::Copy {
            source: "/project/static/robots.txt".into(),
            destination: "robots.txt".into()
        }]
    );
}

fn sources(has_404: bool) -> SiteSources {
    SiteSources {
        dist_folder: "/p/dist".into(),
        static_root: "/p/static".into(),
        static_files: vec!["/p/static/css/site.css".into(), "/p/static/robots.txt".into()],
        template_static_root: "/p/template/static".into(),
        template_static_files: vec![
            "/p/template/static/css/site.css".into(),
            "/p/template/static\\img\\logo.png".into(),
        ],
        title: "Blog".into(),
        description: "About things".into(),
        has_not_found_template: has_404,
    }
}

#[test]
fn init_site_registers_files_then_defaults() {
    let site = init_site(&sources(true)).unwrap();
    match site.get_page("css/site.css") {
        Some(Page::Static(p)) => assert_eq!(p.source.as_deref(), Some("/p/static/css/site.css")),
        _ => panic!("project file expected"),
    }
    match site.get_page("img/logo.png") {
        Some(Page::Static(p)) => {
            assert_eq!(p.source.as_deref(), Some("/p/template/static\\img\\logo.png"))
        }
        _ => panic!("template file expected"),
    }
    match site.get_page("robots.txt") {
        Some(Page::Static(p)) => {
            assert_eq!(p.source.as_deref(), Some("/p/static/robots.txt"));
            assert_eq!(p.fallback, None);
        }
        _ => panic!("the project's robots file expected"),
    }
    match site.get_page("/") {
        Some(Page::Dynamic(p)) => {
            assert_eq!(p.template, "index.html");
            assert_eq!(p.title, "Blog");
            assert_eq!(p.description, "About things");
        }
        _ => panic!("entry page expected"),
    }
    match site.get_page("/404.html") {
        Some(Page::Dynamic(p)) => assert_eq!(p.template, "404.html"),
        _ => panic!("not-found page expected"),
    }
    assert_eq!(site.dist_folder(), "/p/dist");
}

#[test]
fn init_site_without_not_found_template() {
    let mut s = sources(false);
    s.static_files = vec![];
    let site = init_site(&s).unwrap();
    assert!(site.get_page("/404.html").is_none());
    match site.get_page("robots.txt") {
        Some(Page::Static(p)) => {
            assert_eq!(p.source, None);
            assert_eq!(p.fallback.as_deref(), Some("User-agent: *\nAllow: /"));
        }
        _ => panic!("default robots policy expected"),
    }
}

#[test]
fn init_site_rejects_a_file_outside_its_root() {
    let mut s = sources(false);
    s.template_static_files.push("/elsewhere/x.css".into());
    assert_eq!(
        init_site(&s).err(),
        Some(SiteError::OutsideRoot("/elsewhere/x.css".into()))
    );
}

#[test]
fn output_paths() {
    assert_eq!(Page::Dynamic(dynamic("/")).output_path(), "index.html");
    assert_eq!(Page::Dynamic(dynamic("/a/b.html")).output_path(), "a/b.html");
    assert_eq!(Page::Dynamic(dynamic("//x.html")).output_path(), "x.html");
    assert_eq!(
        Page::Static(StaticPage { destination: "/".into(), source: None, fallback: None })
            .output_path(),
        ""
    );
}
