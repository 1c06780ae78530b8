use pliego::portable::{OutputLayout, OutputNamespace, PortablePath, MAX_PORTABLE_PATH_BYTES};

#[test]
fn portable_paths_reject_aliases_and_reserved_names() {
    for invalid in [
        "",
        "/root",
        "tail/",
        "../escape",
        "a//b",
        "a\\b",
        "CON",
        "aux.txt",
        "LPT1.css",
        "trailing.",
        "trailing ",
        "bad:name",
    ] {
        assert!(
            PortablePath::parse(invalid).is_err(),
            "accepted {invalid:?}"
        );
    }
    let composed = PortablePath::parse("caf\u{e9}.html").unwrap();
    let decomposed = PortablePath::parse("cafe\u{301}.html").unwrap();
    assert_eq!(composed.collision_key(), decomposed.collision_key());
    assert_eq!(
        PortablePath::parse("Stra\u{df}e.html")
            .unwrap()
            .collision_key(),
        PortablePath::parse("STRASSE.html").unwrap().collision_key()
    );
    let expands_during_nfc = (0..128)
        .map(|_| "\u{344}".repeat(15))
        .collect::<Vec<_>>()
        .join("/");
    assert!(expands_during_nfc.len() <= MAX_PORTABLE_PATH_BYTES);
    assert!(PortablePath::parse(&expands_during_nfc).is_err());
}

#[test]
fn namespace_rejects_exact_case_unicode_and_file_directory_collisions() {
    for (first, second) in [
        ("guide/index.html", "guide/index.html"),
        ("Guide/index.html", "guide/index.html"),
        ("caf\u{e9}.html", "cafe\u{301}.html"),
        ("Stra\u{df}e.html", "STRASSE.html"),
        ("guide", "guide/index.html"),
        ("Assets/a.css", "assets/b.css"),
    ] {
        let mut namespace = OutputNamespace::new();
        namespace.insert_str(first, "first").unwrap();
        assert!(
            namespace.insert_str(second, "second").is_err(),
            "accepted collision {first:?} versus {second:?}"
        );
    }
}

#[test]
fn namespace_validation_scales_without_pairwise_scans() {
    let mut namespace = OutputNamespace::new();
    for index in 0..25_000 {
        namespace
            .insert_str(&format!("assets/{index:05}.bin"), "stress")
            .unwrap();
    }
}

#[test]
fn namespace_rejects_component_and_prefix_byte_amplification() {
    let shared = (0..127)
        .map(|index| format!("d{index:03}"))
        .collect::<Vec<_>>()
        .join("/");
    let mut component_limited = OutputNamespace::new();
    let mut component_error = None;
    for index in 0..3_000 {
        match component_limited.insert_str(&format!("{shared}/f{index:04}"), "stress") {
            Ok(_) => {}
            Err(error) => {
                component_error = Some(error);
                break;
            }
        }
    }
    assert!(
        component_error
            .unwrap()
            .message()
            .contains("path components")
    );

    let tail = (0..127)
        .map(|index| format!("component-{index:03}-xxxxx"))
        .collect::<Vec<_>>()
        .join("/");
    let mut prefix_limited = OutputNamespace::new();
    let mut prefix_error = None;
    for index in 0..200 {
        match prefix_limited.insert_str(&format!("root-{index:03}/{tail}"), "stress") {
            Ok(_) => {}
            Err(error) => {
                prefix_error = Some(error);
                break;
            }
        }
    }
    assert!(
        prefix_error
            .unwrap()
            .message()
            .contains("stored prefix bytes")
    );
}

#[test]
fn output_layout_rejects_stored_path_amplification_before_insertion() {
    let long_tail = (0..15)
        .map(|_| "x".repeat(250))
        .collect::<Vec<_>>()
        .join("/");
    let mut layout = OutputLayout::new();
    let mut error = None;
    for index in 0..10_000 {
        let path = format!("f{index:05}/{long_tail}");
        match layout.account_stored_path(&path) {
            Ok(()) => {}
            Err(found) => {
                error = Some(found);
                break;
            }
        }
    }
    assert!(error.unwrap().message().contains("stored path bytes"));
}

#[test]
fn accepted_paths_never_nest_and_refusals_add_no_file() {
    let mut namespace = OutputNamespace::new();
    namespace.insert_str("docs/guide.html", "a").unwrap();
    assert!(namespace.insert_str("docs/guide.html/extra.txt", "b").is_err());
    assert!(namespace.insert_str("Docs", "c").is_err());
    assert!(namespace.insert_str("DOCS/GUIDE.HTML", "d").is_err());
    namespace.insert_str("docs/other.html", "e").unwrap();
    namespace.insert_str("docsx/guide.html", "f").unwrap();
}

fn outcomes(namespace: &mut OutputNamespace, paths: &[&str]) -> Vec<Result<String, String>> {
    paths
        .iter()
        .map(|path| {
            namespace
                .insert_str(path, "later")
                .map(|accepted| accepted.as_str().to_owned())
                .map_err(|error| error.message())
        })
        .collect()
}

#[test]
fn refused_collisions_leave_later_inserts_unchanged() {
    let later = ["assets", "assets/app.css", "Assets/app.js", "site/index.html", "site"];
    let mut refused = OutputNamespace::new();
    let mut untouched = OutputNamespace::new();
    for namespace in [&mut refused, &mut untouched] {
        namespace.insert_str("Assets/logo.png", "first").unwrap();
        namespace.insert_str("docs/guide.html", "first").unwrap();
    }
    for collision in ["assets/site/x/logo.png", "docs/guide.html/x", "DOCS", "docs/GUIDE.HTML"] {
        assert!(refused.insert_str(collision, "refused").is_err(), "{collision} was accepted");
    }
    assert_eq!(outcomes(&mut refused, &later), outcomes(&mut untouched, &later));
}

#[test]
fn collisions_come_exactly_from_clashing_accepted_paths() {
    let mut namespace = OutputNamespace::new();
    namespace.insert_str("media/Photos/cat.jpg", "a").unwrap();
    // Same key, a file below a file, a file where a directory is, a
    // directory spelled otherwise: each clashes with the accepted path.
    for clash in ["MEDIA/photos/CAT.JPG", "media/Photos/cat.jpg/x", "media/Photos", "media/photos/dog.jpg"] {
        assert!(namespace.insert_str(clash, "b").is_err(), "{clash} was accepted");
    }
    // Paths that clash with no accepted path are accepted.
    for fresh in ["media/Photos/dog.jpg", "media/cat.jpg", "mediax/Photos", "media/Photos2/cat.jpg"] {
        namespace.insert_str(fresh, "c").unwrap();
    }
}

#[test]
fn a_slash_inside_a_component_key_can_leave_a_directory_behind() {
    // U+FF0F folds to '/', so this component's key holds a slash.
    let mut namespace = OutputNamespace::new();
    namespace.insert_str("a\u{ff0f}b/c", "first").unwrap();
    assert!(namespace.insert_str("a/b/x/y", "second").is_err());
    assert!(namespace.insert_str("a", "third").is_err());
    let mut fresh = OutputNamespace::new();
    fresh.insert_str("a\u{ff0f}b/c", "first").unwrap();
    fresh.insert_str("a", "third").unwrap();
}
