use turbo_engine::ident::AssetIdent;

#[test]
fn plain_path_text() {
    let id = AssetIdent::from_path("src/app.js".into());
    assert_eq!(id.to_string(), "src/app.js");
    assert_eq!(id.path(), "src/app.js");
}

#[test]
fn query_and_fragment_text() {
    let mut id = AssetIdent::from_path("src/app.js".into());
    id.query = Some("foo=bar".into());
    id.fragment = Some("top".into());
    assert_eq!(id.to_string(), "src/app.js?foo=bar#top");
}

#[test]
fn nested_assets_text() {
    let mut id = AssetIdent::from_path("src/app.js".into());
    let inner = AssetIdent::from_path("lib/util.js".into());
    id.add_asset("client".into(), inner);
    assert_eq!(id.to_string(), "src/app.js/(client)/lib/util.js");
}

#[test]
fn modifiers_text() {
    let id = AssetIdent::from_path("src/app.js".into())
        .with_modifier("client chunks".into())
        .with_modifier("ssr".into());
    assert_eq!(id.to_string(), "src/app.js (client chunks, ssr)");
    let one = AssetIdent::from_path("a".into()).with_modifier("m".into());
    assert_eq!(one.to_string(), "a (m)");
}

#[test]
fn everything_together() {
    let mut id = AssetIdent::from_path("page.js".into());
    id.query = Some("v=1".into());
    let mut inner = AssetIdent::from_path("dep.js".into());
    inner.add_modifier("inner".into());
    id.add_asset("k".into(), inner);
    id.add_modifier("outer".into());
    let id = id.with_part(2);
    assert_eq!(id.part, Some(2));
    assert_eq!(id.to_string(), "page.js?v=1/(k)/dep.js (inner) (outer)");
}
