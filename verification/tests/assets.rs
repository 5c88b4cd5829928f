use statica::assets::{AssetKind, AssetProcessOptions, ProcessReport};

#[test]
fn kind_gates() {
    let mut opts = AssetProcessOptions {
        enabled: true,
        css: false,
        js: false,
        images: true,
        fonts: false,
        ..AssetProcessOptions::default()
    };
    assert!(opts.allows(AssetKind::Image));
    assert!(!opts.allows(AssetKind::Css));
    opts.enabled = false;
    assert!(!opts.allows(AssetKind::Image));
}

#[test]
fn kinds_by_extension() {
    assert_eq!(AssetKind::from_ext("css"), AssetKind::Css);
    assert_eq!(AssetKind::from_ext("mjs"), AssetKind::Js);
    assert_eq!(AssetKind::from_ext("avif"), AssetKind::Image);
    assert_eq!(AssetKind::from_ext("woff2"), AssetKind::Font);
    assert_eq!(AssetKind::from_ext("CSS"), AssetKind::Other);
    assert!(!AssetProcessOptions::off().allows(AssetKind::Css));
    let r = ProcessReport::new();
    assert_eq!((r.processed, r.copied, r.warnings.len()), (0, 0, 0));
}
