use turbo_engine::identifiers::{Descriptor, Ident, Locator};

#[test]
fn test_parse_ident_with_scope() {
    assert_eq!(
        Ident::try_from("@babel/parser").unwrap(),
        Ident {
            scope: Some("babel".into()),
            name: "parser".into()
        }
    )
}

#[test]
fn test_parse_ident_without_scope() {
    assert_eq!(
        Ident::try_from("turbo").unwrap(),
        Ident {
            scope: None,
            name: "turbo".into(),
        }
    )
}

#[test]
fn test_ident_roundtrip() {
    for ident in ["turbo", "@babel/parser"] {
        assert_eq!(ident, Ident::try_from(ident).unwrap().to_string());
    }
}

#[test]
fn test_parse_descriptor() {
    assert_eq!(
        Descriptor::try_from("@babel/code-frame@npm:7.12.11").unwrap(),
        Descriptor {
            ident: Ident {
                scope: Some("babel".into()),
                name: "code-frame".into()
            },
            range: "npm:7.12.11".into(),
        }
    )
}

#[test]
fn test_descriptor_roundtrip() {
    for descriptor in [
        "@babel/code-frame@npm:7.12.11",
        "lodash@patch:lodash@npm%3A4.17.21#./.yarn/patches/lodash-npm-4.17.21-6382451519.\
         patch::version=4.17.21&hash=2c6e9e&locator=berry-patch%40workspace%3A.",
    ] {
        assert_eq!(
            descriptor,
            Descriptor::try_from(descriptor).unwrap().to_string()
        )
    }
}

#[test]
fn test_locator_patch_file() {
    let test_cases = [
        (
            "lodash@patch:lodash@npm%3A4.17.21#./.yarn/patches/lodash-npm-4.17.\
             21-6382451519.patch::version=4.17.21&hash=2c6e9e&locator=berry-patch%\
             40workspace%3A.",
            Some(".yarn/patches/lodash-npm-4.17.21-6382451519.patch"),
        ),
        ("lodash@npm:4.17.21", None),
        (
            "resolve@patch:resolve@npm%3A2.0.0-next.4#~builtin<compat/\
             resolve>::version=2.0.0-next.4&hash=07638b",
            Some("~builtin<compat/resolve>"),
        ),
    ];
    for (locator, file) in test_cases {
        let locator = Locator::try_from(locator).unwrap();
        assert_eq!(locator.patch_file(), file);
    }
}

#[test]
fn test_locator_patch_original_locator() {
    let locator = Locator::try_from(
        "lodash@patch:lodash@npm%3A4.17.21#./.yarn/patches/lodash-npm-4.17.21-6382451519.\
         patch::version=4.17.21&hash=2c6e9e&locator=berry-patch%40workspace%3A.",
    )
    .unwrap();
    let original = locator.patched_locator().unwrap();
    assert_eq!(original, Locator::try_from("lodash@npm:4.17.21").unwrap())
}

#[test]
fn test_patch_primary_version() {
    let test_cases = [
        (
            "lodash@patch:lodash@npm%3A4.17.21#./.yarn/patches/lodash-npm-4.17.\
             21-6382451519.patch::locator=berry-patch%40workspace%3A.",
            Some("npm:4.17.21"),
        ),
        (
            "typescript@patch:typescript@^4.5.2#~builtin<compat/typescript>",
            Some("npm:^4.5.2"),
        ),
        ("react@npm:18.2.0", None),
    ];
    for (locator, version) in test_cases {
        let locator = Locator::try_from(locator).unwrap();
        let patch_locator = locator.patched_locator();
        assert_eq!(
            version,
            patch_locator.as_ref().map(|l| l.reference.as_str()),
            "{}",
            locator.to_string()
        );
    }
}

#[test]
fn test_descriptor_new_and_protocols() {
    let d = Descriptor::new("@babel/parser", "npm:^7.0.0").unwrap();
    assert_eq!(d.protocol(), Some("npm"));
    assert_eq!(d.range_without_protocol(), "^7.0.0");
    assert_eq!(Descriptor::strip_protocol("workspace:packages/ui"), "packages/ui");
    assert_eq!(Descriptor::strip_protocol("1.2.3"), "1.2.3");
    let bare = Descriptor::new("turbo", "1.2.3").unwrap();
    assert_eq!(bare.protocol(), None);
    assert_eq!(bare.range(), Some("1.2.3"));
}

#[test]
fn test_parse_rejects_malformed() {
    assert!(Ident::try_from("").is_err());
    assert!(Ident::try_from("@/name").is_err());
    assert!(Ident::try_from("@scope").is_err());
    assert!(Ident::try_from("a/b").is_err());
    assert!(Ident::try_from("a@b").is_err());
    assert!(Descriptor::try_from("turbo").is_err());
    assert!(Descriptor::try_from("turbo@").is_err());
    assert!(Descriptor::try_from("@scope/name").is_err());
    assert!(Locator::try_from("@scope/name").is_err());
}

#[test]
fn test_from_lockfile_key() {
    let results = Descriptor::from_lockfile_key("@babel/core@npm:7.0.0, @babel/core@npm:^7.1.0");
    assert_eq!(results.len(), 2);
    let first = results[0].as_ref().unwrap();
    assert_eq!(first.range.as_str(), "npm:7.0.0");
    let second = results[1].as_ref().unwrap();
    assert_eq!(second.range.as_str(), "npm:^7.1.0");
    assert_eq!(second.ident.scope.as_deref(), Some("babel"));
    // spaces around the separator belong to it; a bad entry is reported in place
    let spaced = Descriptor::from_lockfile_key("a@1 ,  b@2, nope");
    assert_eq!(spaced.len(), 3);
    assert_eq!(spaced[0].as_ref().unwrap().to_string(), "a@1");
    assert_eq!(spaced[1].as_ref().unwrap().to_string(), "b@2");
    assert!(spaced[2].is_err());
}

#[test]
fn test_is_patch_builtin() {
    assert!(Locator::is_patch_builtin("~builtin<compat/resolve>"));
    assert!(Locator::is_patch_builtin("builtin<compat/typescript>"));
    assert!(!Locator::is_patch_builtin(".yarn/patches/x.patch"));
    assert!(!Locator::is_patch_builtin("builtin<>"));
}

#[test]
fn test_is_workspace_path() {
    let l = Locator::new("ui", "workspace:packages/ui").unwrap();
    assert!(l.is_workspace_path("packages/ui"));
    assert!(!l.is_workspace_path("packages/web"));
    let n = Locator::new("ui", "npm:1.0.0").unwrap();
    assert!(!n.is_workspace_path("packages/ui"));
    let owned = l.as_owned();
    assert_eq!(owned, l);
    assert_eq!(l.ident.into_owned(), Ident { scope: None, name: "ui".into() });
}
