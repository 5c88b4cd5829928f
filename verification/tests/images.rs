use indexmap::IndexMap;
use statica::images::{
    build_picture_from_img, is_local_src, is_responsive_source, mime_for_ext, normalize_src, scaled_height,
    target_widths, transform_document_imgs, ImageManifest, ImageProcessOptions, ImageVariant, ResponsiveImage,
};
use statica::parse::ast::{Document, Element, Node};
use statica::parse::serialize::serialize_nodes;

#[test]
fn target_widths_includes_original() {
    assert_eq!(target_widths(500, &[768, 1024]), vec![500]);
    assert_eq!(target_widths(2000, &[768, 1024]), vec![768, 1024, 2000]);
}

#[test]
fn normalize_src_strips_query() {
    assert_eq!(normalize_src("/a.jpg?v=1"), "/a.jpg");
    assert_eq!(normalize_src("assets/a.jpg"), "/assets/a.jpg");
}

#[test]
fn local_src_rejects_remote() {
    assert!(!is_local_src("https://example.com/a.jpg"));
    assert!(is_local_src("/assets/a.jpg"));
}

#[test]
fn target_widths_sorts_and_dedups() {
    assert_eq!(target_widths(1000, &[800, 0, 400, 800, 1200, 1000]), vec![400, 800, 1000]);
}

#[test]
fn scaled_height_keeps_ratio() {
    assert_eq!(scaled_height(2000, 1000, 768), 384);
    assert_eq!(scaled_height(0, 77, 10), 77);
    assert_eq!(scaled_height(1, u32::MAX, 2), u32::MAX);
}

#[test]
fn formats_and_mime() {
    assert!(is_responsive_source("jpeg"));
    assert!(!is_responsive_source("gif"));
    assert_eq!(mime_for_ext("JPG"), "image/jpeg");
    assert_eq!(mime_for_ext("bmp"), "application/octet-stream");
    let o = ImageProcessOptions::default();
    assert!(o.wants_format("WebP"));
    assert!(!o.wants_format("avif"));
}

fn variant(width: u32, format: &str) -> ImageVariant {
    ImageVariant { width, height: width / 2, format: format.into(), mime: mime_for_ext(format), url: format!("/a-{width}w.{format}") }
}

fn image() -> ResponsiveImage {
    ResponsiveImage {
        width: 1024,
        height: 512,
        source_format: "jpg".into(),
        source_mime: "image/jpeg".into(),
        source_url: "/a.jpg".into(),
        variants: vec![variant(1024, "webp"), variant(480, "jpg"), variant(480, "webp"), variant(768, "WEBP")],
    }
}

#[test]
fn variants_sorted_by_width_per_format() {
    let img = image();
    let w: Vec<u32> = img.variants_for_format("webp").iter().map(|v| v.width).collect();
    assert_eq!(w, vec![480, 768, 1024]);
    assert_eq!(img.srcset_for_format("jpg"), "/a-480w.jpg 480w");
    assert_eq!(img.largest_for_format("webp").unwrap().width, 1024);
    assert!(img.largest_for_format("png").is_none());
    assert_eq!(img.mime_for("webp"), "image/webp");
}

#[test]
fn manifest_lookup_normalizes_src() {
    let mut m = ImageManifest::new();
    assert!(m.is_empty());
    m.insert("/assets/a.jpg".into(), image());
    assert_eq!(m.len(), 1);
    assert!(m.get("assets/a.jpg?v=2").is_some());
    assert!(m.get("/assets/b.jpg").is_none());
    let mut n = ImageManifest::new();
    n.insert("img/b.png".into(), image());
    m.merge(&n);
    assert_eq!(m.len(), 2);
    assert!(m.get("/img/b.png#x").is_some());
}

fn img(attrs: &[(&str, &str)]) -> Node {
    Node::Element(Element {
        name: "img".into(),
        attrs: attrs.iter().map(|(k, v)| (k.to_string(), v.to_string())).collect::<IndexMap<_, _>>(),
        children: vec![],
        void: true,
    })
}

#[test]
fn img_becomes_picture_with_sources() {
    let mut m = ImageManifest::new();
    m.insert("/assets/a.jpg".into(), image());
    let opts = ImageProcessOptions::default();
    let p = build_picture_from_img(&img(&[("src", "/assets/a.jpg"), ("alt", "A"), ("data-statica-img-sizes", "50vw")]), &m, &opts)
        .expect("picture");
    assert_eq!(
        serialize_nodes(&[p]),
        "<picture>\
<source type=\"image/webp\" srcset=\"/a-480w.webp 480w, /a-768w.WEBP 768w, /a-1024w.webp 1024w\" sizes=\"50vw\" />\
<source type=\"image/jpeg\" srcset=\"/a-480w.jpg 480w\" sizes=\"50vw\" />\
<img src=\"/a-480w.jpg\" alt=\"A\" srcset=\"/a-480w.jpg 480w\" sizes=\"50vw\" width=\"1024\" height=\"512\" loading=\"lazy\" decoding=\"async\" />\
</picture>"
    );
    assert!(build_picture_from_img(&img(&[("src", "/assets/a.jpg"), ("srcset", "x 1w")]), &m, &opts).is_none());
    assert!(build_picture_from_img(&img(&[("src", "/assets/a.jpg"), ("data-statica-img", "off")]), &m, &opts).is_none());
    assert!(build_picture_from_img(&img(&[("src", "https://x.com/a.jpg")]), &m, &opts).is_none());
    assert!(build_picture_from_img(&img(&[("src", "/assets/zzz.jpg")]), &m, &opts).is_none());
    assert!(build_picture_from_img(&Node::Text("x".into()), &m, &opts).is_none());
}

#[test]
fn only_images_outside_pictures_are_rewritten() {
    let mut m = ImageManifest::new();
    m.insert("/assets/a.jpg".into(), image());
    let opts = ImageProcessOptions::default();
    let mut doc = Document {
        doctype: None,
        children: vec![
            img(&[("src", "/assets/a.jpg")]),
            Node::Element(Element {
                name: "PICTURE".into(),
                attrs: IndexMap::new(),
                children: vec![img(&[("src", "/assets/a.jpg")])],
                void: false,
            }),
            Node::Element(Element {
                name: "div".into(),
                attrs: IndexMap::new(),
                children: vec![img(&[("src", "/assets/a.jpg")]), img(&[("src", "/nope.png")])],
                void: false,
            }),
        ],
    };
    assert_eq!(transform_document_imgs(&mut doc, &m, &opts), 2);
    assert!(matches!(&doc.children[0], Node::Element(e) if e.name == "picture"));
    match &doc.children[1] {
        Node::Element(e) => assert!(matches!(&e.children[0], Node::Element(i) if i.name == "img")),
        _ => panic!(),
    }
}

#[test]
fn builds_picture_from_img() {
    let mut manifest = ImageManifest::new();
    manifest.insert(
        "/photo.jpg".to_string(),
        ResponsiveImage {
            width: 1200,
            height: 800,
            source_format: "jpg".into(),
            source_mime: "image/jpeg".into(),
            source_url: "/photo.jpg".into(),
            variants: vec![
                ImageVariant { width: 640, height: 427, format: "webp".into(), mime: "image/webp".into(), url: "/photo-640w.webp".into() },
                ImageVariant { width: 640, height: 427, format: "jpg".into(), mime: "image/jpeg".into(), url: "/photo-640w.jpg".into() },
                ImageVariant { width: 1200, height: 800, format: "jpg".into(), mime: "image/jpeg".into(), url: "/photo-1200w.jpg".into() },
            ],
        },
    );

    let img = Node::Element(Element {
        name: "img".into(),
        attrs: IndexMap::from([("src".into(), "/photo.jpg".into()), ("alt".into(), "Sunset".into())]),
        children: Vec::new(),
        void: true,
    });

    let opts = ImageProcessOptions::default();
    let picture = build_picture_from_img(&img, &manifest, &opts).expect("picture");
    let Node::Element(picture_el) = picture else {
        panic!("expected element");
    };
    assert_eq!(picture_el.name, "picture");
    assert_eq!(picture_el.children.len(), 3);
}

#[test]
fn plans_responsive_variants_by_format_then_width() {
    let opts = ImageProcessOptions { widths: vec![60, 120, 500], ..ImageProcessOptions::default() };
    let plan = statica::images::plan_responsive_image("/site/assets/photo.JPG", 120, 80, "/out/assets/photo.jpg", "/out", &opts)
        .unwrap();
    assert_eq!(plan.widths, vec![60, 120]);
    let v: Vec<(u32, u32, &str, &str)> =
        plan.image.variants.iter().map(|v| (v.width, v.height, v.format.as_str(), v.url.as_str())).collect();
    assert_eq!(
        v,
        vec![
            (60, 40, "jpg", "/assets/photo-60w.jpg"),
            (120, 80, "jpg", "/assets/photo-120w.jpg"),
            (60, 40, "webp", "/assets/photo-60w.webp"),
            (120, 80, "webp", "/assets/photo-120w.webp"),
        ]
    );
    assert_eq!(plan.paths[2], "/out/assets/photo-60w.webp");
    assert_eq!(plan.image.source_format, "jpg");
    assert_eq!(plan.image.source_mime, "image/jpeg");
    assert_eq!(plan.image.source_url, "/assets/photo.jpg");
    assert!(statica::images::plan_responsive_image("/a/icon.svg", 10, 10, "/out/icon.svg", "/out", &opts).is_err());
}

#[test]
fn manifest_finds_an_image_from_any_spelling_of_its_source() {
    let mut m = ImageManifest::new();
    m.insert(
        "/a.jpg".to_string(),
        ResponsiveImage {
            width: 10,
            height: 10,
            source_format: "jpg".into(),
            source_mime: "image/jpeg".into(),
            source_url: "/a.jpg".into(),
            variants: vec![],
        },
    );
    assert!(m.get("/a.jpg?v=1").is_some());
    assert!(m.get("a.jpg").is_some());
    assert!(m.get(" /a.jpg#top ").is_some());
    assert!(m.get("/b.jpg").is_none());
}
