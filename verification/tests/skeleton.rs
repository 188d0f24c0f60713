use studio_backend::components_catalog::skeleton::{gear_slug, generate, SkeletonSpec};

fn spec(capability: &str) -> SkeletonSpec {
    SkeletonSpec {
        capability: capability.to_owned(),
        app_title: "Studio".to_owned(),
        problem: String::new(),
        origin: String::new(),
        parent_dir: String::new(),
    }
}

#[test]
fn slugs_what_a_person_types_and_never_returns_an_empty_directory() {
    assert_eq!(gear_slug("My Gear"), "my-gear");
    assert_eq!(gear_slug("Account Management!"), "account-management");
    assert_eq!(gear_slug("  spaced  out  "), "spaced-out");
    assert_eq!(gear_slug(""), "capability");
    assert_eq!(gear_slug("!!!"), "capability");
}

#[test]
fn writes_the_canonical_five_files() {
    let (slug, files) = generate(&spec("Audit Log"));
    assert_eq!(slug, "audit-log");
    let paths: Vec<&str> = files.iter().map(|f| f.path.as_str()).collect();
    assert_eq!(
        paths,
        vec![
            "gears/audit-log/gear.toml",
            "gears/audit-log/Cargo.toml",
            "gears/audit-log/src/lib.rs",
            "gears/audit-log/docs/PRD.md",
            "gears/audit-log/docs/DESIGN.md",
        ]
    );
}

#[test]
fn a_gear_can_be_written_under_its_family() {
    let (_, files) = generate(&SkeletonSpec {
        parent_dir: "/gears/bss/".to_owned(),
        ..spec("Audit Log")
    });
    assert_eq!(files[0].path, "gears/bss/audit-log/gear.toml");
}

#[test]
fn the_manifest_is_shaped_like_its_neighbours() {
    let (_, files) = generate(&spec("Audit Log"));
    let toml = &files[0].content;
    assert!(toml.starts_with("[gear]\n"), "{toml}");
    assert!(toml.contains("name = \"Audit Log\""));
    assert!(toml.contains("is_plugin = false"));
    assert!(toml.contains("has_extension_point = false"));
    assert!(!toml.contains("[plugins]"));
    assert!(!toml.contains("capabilities ="));
}

#[test]
fn the_crate_name_lives_in_cargo_toml_and_the_struct_in_the_lib() {
    let (_, files) = generate(&spec("Audit Log"));
    assert!(files[1].content.contains("name = \"cf-gears-audit-log\""));
    assert!(files[2].content.contains("pub struct AuditLogGear;"));
}

#[test]
fn a_supplied_problem_replaces_the_gap_story_and_a_blank_one_does_not() {
    let (_, gap) = generate(&spec("search"));
    assert!(gap[3]
        .content
        .contains("no catalogued component provides it"));

    let (_, told) = generate(&SkeletonSpec {
        problem: "Sellers cannot find their own listings.".to_owned(),
        origin: "Scaffolded when the project was created.".to_owned(),
        ..spec("search")
    });
    assert!(told[3]
        .content
        .contains("Sellers cannot find their own listings."));
    assert!(!told[3]
        .content
        .contains("no catalogued component provides it"));
    assert!(told[0]
        .content
        .contains("Scaffolded when the project was created."));

    let (_, blank) = generate(&SkeletonSpec {
        problem: "   ".to_owned(),
        ..spec("search")
    });
    assert!(blank[3]
        .content
        .contains("no catalogued component provides it"));
}

#[test]
fn the_manifest_reads_exactly_as_its_neighbours_do() {
    let (_, files) = generate(&spec("Audit Log"));
    assert_eq!(
        files[0].content,
        "[gear]\nname = \"Audit Log\"\ndescription = \"Audit Log capability for Studio. \
         Scaffolded from an App Spec gap.\"\ncategory = \"platform\"\nis_plugin = false\n\
         has_plugins = false\nhas_extension_point = false\n"
    );
    assert_eq!(
        files[1].content,
        "[package]\nname = \"cf-gears-audit-log\"\nversion = \"0.1.0\"\nedition = \"2021\"\n\n\
         [dependencies]\ntoolkit = { workspace = true }\n\
         async-trait = { workspace = true }\nanyhow = { workspace = true }\n"
    );
}

#[test]
fn the_gear_struct_and_title_capitalise_each_word() {
    let (_, files) = generate(&spec("multi--word gear 2"));
    assert!(files[0].content.contains("name = \"Multi Word Gear 2\""));
    assert!(files[2].content.contains("pub struct MultiWordGear2Gear;"));
    assert!(files[3].content.starts_with("---\nstatus: draft\nowner: \n---\n\n# PRD — multi--word gear 2 gear\n"));
}

#[test]
fn a_blank_parent_falls_back_to_gears() {
    let (_, files) = generate(&SkeletonSpec {
        parent_dir: "  /  ".to_owned(),
        ..spec("x")
    });
    assert_eq!(files[4].path, "gears/x/docs/DESIGN.md");
}
