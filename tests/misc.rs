use bar::checksum::checksum_text;
use bar::config::{default_extension, default_prompt, GpxEmbeddingConfig};
use bar::error::{recursive_terra_error, BarErr, ContextExt};
use bar::paths::{create_destination_path, starts_with, trim_leading_slashes, with_forward_slashes};
use bar::site::{DynamicPage, Page, Site, StaticPage};
use bar::templating::{
    cache_busted, feed_order, local_image_page, requested_page, static_file_source, StaticFileError,
};

#[test]
fn multiple_context_display() {
    let error_message = "Error:\n\nactual error\n\ncontext:\n\t2. second\n\t1. first\n".to_string();
    let err: Result<(), BarErr> = Err("actual error")
        .with_context(|| "first".to_string())
        .with_context(|| "second".to_string());

    if let Err(bar) = err {
        assert_eq!(bar.render(), error_message);
    } else {
        panic!("expected an error");
    }
}

#[test]
fn multiple_context_debug() {
    let error_message = "Error:\n\nactual error\n\ncontext:\n\t2. second\n\t1. first\n".to_string();
    let err: Result<(), BarErr> = Err("actual error")
        .with_context(|| "first".to_string())
        .with_context(|| "second".to_string());

    if let Err(bar) = err {
        assert_eq!(format!("{}", bar.render()), error_message);
    } else {
        panic!("expected an error");
    }
}

#[test]
fn error_without_context_and_with_many_frames() {
    assert_eq!(BarErr::from("boom").render(), "Error:\n\nboom\n\n\n");
    let mut e = BarErr::from(String::from("disk full"));
    for i in 1..=11 {
        e.push_context(format!("f{i}"));
    }
    let r = e.render();
    assert!(r.starts_with("Error:\n\ndisk full\n\ncontext:\n\t11. f11\n\t10. f10\n"));
    assert!(r.ends_with("\t1. f1\n"));
    let ok: Result<u8, BarErr> = Ok::<u8, &str>(3).with_context(|| "unused".to_string());
    assert_eq!(ok.ok(), Some(3));
}

#[test]
fn checksum_of_known_text() {
    assert_eq!(checksum_text(b"hello"), "NhCmhg");
    assert_eq!(checksum_text(b""), "AAAAAA");
    assert_eq!(checksum_text(b"abc"), "NSRBwg");
}

#[test]
fn defaults() {
    assert_eq!(
        default_extension(),
        vec!["css", "js", "png", "jpg", "jpeg", "gif", "svg", "webmanifest", "ico", "txt"]
    );
    assert_eq!(default_prompt(), "Describe this image in detail");
    let gpx = GpxEmbeddingConfig::default();
    assert_eq!(gpx.base, vec!["https://tile.openstreetmap.org".to_string()]);
    assert!(gpx.attribution_png.is_none());
}

#[test]
fn path_helpers() {
    assert_eq!(trim_leading_slashes("///a/b"), "a/b");
    assert_eq!(trim_leading_slashes("a/"), "a/");
    assert_eq!(with_forward_slashes("a\\b\\c"), "a/b/c");
    assert_eq!(create_destination_path("/p/static/css/a.css", "/p/static"), "css/a.css");
    assert_eq!(create_destination_path("C:\\p\\static\\css\\a.css", "C:\\p\\static"), "css/a.css");
    assert!(starts_with("/p/static/x", "/p/static"));
    assert!(!starts_with("/p/stat", "/p/static"));
}

#[test]
fn template_page_defaults() {
    let p = requested_page(None, None, None, None, None);
    assert_eq!(
        p,
        DynamicPage {
            path: "/".into(),
            template: "index.html".into(),
            title: "".into(),
            description: "".into(),
            content: None,
            page_num: 0,
        }
    );
    let q = requested_page(Some("/tags/x.html".into()), Some("tag.html".into()), Some("X".into()), None, Some(3));
    assert_eq!(q.path, "/tags/x.html");
    assert_eq!(q.template, "tag.html");
    assert_eq!(q.title, "X");
    assert_eq!(q.description, "");
    assert_eq!(q.page_num, 3);
}

#[test]
fn static_file_links() {
    let mut site = Site::new("dist".into());
    site.add_page(Page::Static(StaticPage {
        destination: "css/site.css".into(),
        source: Some("/p/static/css/site.css".into()),
        fallback: None,
    }));
    site.add_page(Page::Static(StaticPage {
        destination: "robots.txt".into(),
        source: None,
        fallback: Some("User-agent: *".into()),
    }));
    site.add_page(Page::Dynamic(requested_page(None, None, None, None, None)));
    assert_eq!(static_file_source(&site, "/css/site.css"), Ok("/p/static/css/site.css".to_string()));
    assert_eq!(
        static_file_source(&site, "/nope.css"),
        Err(StaticFileError::NotFound("/nope.css".into()))
    );
    assert_eq!(static_file_source(&site, "/"), Err(StaticFileError::NotFound("/".into())));
    assert_eq!(
        static_file_source(&site, "robots.txt"),
        Err(StaticFileError::NoSource("robots.txt".into()))
    );
    assert_eq!(cache_busted("/css/site.css", "NhCmhg"), "/css/site.css?cb=NhCmhg");
}

#[test]
fn static_lookup_of_a_dynamic_page() {
    let mut site = Site::new("dist".into());
    site.add_page(Page::Dynamic(requested_page(Some("index.html".into()), None, None, None, None)));
    assert_eq!(
        static_file_source(&site, "/index.html"),
        Err(StaticFileError::NotStatic("/index.html".into()))
    );
}

#[test]
fn local_images_are_copied_from_the_project() {
    let p = local_image_page("/img/a.png", "/project");
    assert_eq!(p.destination, "/img/a.png");
    assert_eq!(p.source.as_deref(), Some("/project/img/a.png"));
    assert_eq!(p.fallback, None);
    let q = local_image_page("/img/a.png", "/project/");
    assert_eq!(q.source.as_deref(), Some("/project/img/a.png"));
}

#[test]
fn feed_entries_newest_first() {
    assert_eq!(feed_order(&vec![10, 30, 20, 30, -5]), vec![1, 3, 2, 0, 4]);
    assert!(feed_order(&vec![]).is_empty());
}

#[test]
fn error_chain_text() {
    assert_eq!(recursive_terra_error(&vec!["only".to_string()]), "only\n");
    assert_eq!(
        recursive_terra_error(&vec!["a".to_string(), "b".to_string(), "c".to_string()]),
        "a\nb\nc\n\n\n"
    );
    assert_eq!(recursive_terra_error(&vec![]), "");
}

#[test]
fn zoom_keeps_its_level() {
    assert_eq!(bar::tiles::Zoom::new(8).zoom, 8);
}
