use starpkg::id::{parse_identifier, Identifier, ParseError};
use starpkg::package::{ActorSource, LoadError, Manifest, Package, SpriteSource, TextSource};
use starpkg::registry::Registry;
use starpkg::sanitize::{generic_name, package_name, GenericNameError};
use starpkg::script::{BlockKind, Script};
use starpkg::sprite::Sprite;
use starpkg::strutil::hex_pad;
use starpkg::text::Text;
use starpkg::xml::XmlElem;

#[test]
fn hex_rendering() {
    assert_eq!(hex_pad(0, 2), "00");
    assert_eq!(hex_pad(255, 2), "FF");
    assert_eq!(hex_pad(1, 4), "0001");
    assert_eq!(hex_pad(0x1a, 1), "1A");
    assert_eq!(hex_pad(256, 2), "100");
}

#[test]
fn identifier_round_trip() {
    // An unqualified reference resolves against the source package.
    let id = parse_identifier("cool_sprite", "test_pkg").unwrap();
    assert_eq!(id.package, "test_pkg");
    assert_eq!(id.name, "cool_sprite");
    // A qualified reference names its own package.
    let id = parse_identifier("outside/cool_sprite", "test_pkg").unwrap();
    assert_eq!(id.package, "outside");
    assert_eq!(id.name, "cool_sprite");
    assert_eq!(id.qualified_text(), "outside/cool_sprite");
    assert_eq!(id.display_text(), "outside_cool_sprite");
    // Qualifying with the source package itself is rejected as needless.
    let e = parse_identifier("test_pkg/cool_sprite", "test_pkg").unwrap_err();
    assert!(matches!(e, ParseError::PackageNameUnneeded(_)));
}

#[test]
fn private_exports() {
    // A private name resolves unqualified from within its own package.
    let id = parse_identifier("_secret", "test_pkg").unwrap();
    assert_eq!(id.package, "test_pkg");
    assert_eq!(id.name, "_secret");
    // Referencing it with an explicit qualifier from another package fails.
    let e = parse_identifier("outside/_secret", "test_pkg").unwrap_err();
    assert!(matches!(e, ParseError::Private(_)));
    assert!(e.message().contains("identifier '_secret'"));
}

#[test]
fn empty_identifier() {
    assert!(matches!(parse_identifier("", "p").unwrap_err(), ParseError::Empty));
}

#[test]
fn name_fault_order() {
    // Length is checked before the character set.
    let long_and_bad = "a b".repeat(20);
    assert!(matches!(
        generic_name(&long_and_bad).unwrap_err(),
        GenericNameError::TooLong(_)
    ));
    assert!(matches!(generic_name("").unwrap_err(), GenericNameError::TooShort(_)));
    assert!(matches!(
        generic_name("has space").unwrap_err(),
        GenericNameError::BadInternalChars(_)
    ));
    assert!(matches!(generic_name("9lives").unwrap_err(), GenericNameError::BeginNumber(_)));
    assert!(matches!(generic_name("___").unwrap_err(), GenericNameError::JustUnderscores(_)));
    assert!(matches!(generic_name("bad_").unwrap_err(), GenericNameError::EndUnderscore(_)));
    assert!(generic_name("good_name").is_ok());
    assert!(package_name("_x").is_err());
}

#[test]
fn script_comments_and_blocks() {
    let src = "first line % a comment\nsecond/%block\ncomment%/line\n\n#string:0A:(hello)\nbody\n";
    let script = Script::load("pkg", "test.scr".to_string(), src);
    assert_eq!(script.blocks.len(), 2);
    assert_eq!(script.blocks[0].lines.len(), 2);
    assert_eq!(script.blocks[0].lines[0].1, "first line");
    assert_eq!(script.blocks[0].lines[1].1, "secondline");
    match &script.blocks[1].kind {
        BlockKind::StringNamed { section, name } => {
            assert_eq!(*section, 0x0A);
            assert_eq!(name, "hello");
        },
        BlockKind::Other => panic!("second block should be a named string"),
    }
    assert_eq!(script.save(), "first line\nsecondline\n\n#string:0A:(hello)\nbody\n\n");
}

#[test]
fn text_load_many() {
    let ts = Text::load_many(
        "pkg",
        "strings.str".to_string(),
        "#string:01:(alpha)\nA[END]\n\n#string:02:(beta)\nB\nC[END]\n",
    )
    .unwrap();
    assert_eq!(ts.len(), 2);
    assert_eq!(ts[0].name(), "alpha");
    assert_eq!(ts[0].string_section(), 1);
    assert_eq!(ts[0].string, "A[END]");
    assert_eq!(ts[1].string, "B\nC[END]");
    assert!(ts[0].assembled_hex_id().is_none());
}

#[test]
fn version_parsing() {
    let m = Manifest::new("pkg_a".to_string(), "1.2.3", Vec::new()).unwrap();
    assert_eq!(m.version.major, 1);
    assert_eq!(m.version.minor, 2);
    assert_eq!(m.version.patch, 3);
    let m = Manifest::new("pkg_a".to_string(), "1.2.3-alpha+build7", Vec::new()).unwrap();
    assert_eq!(m.version.pre, "alpha");
    assert_eq!(m.version.build, "build7");
    let e = Manifest::new("pkg_a".to_string(), "not a version", Vec::new()).unwrap_err();
    assert!(matches!(e, LoadError::MalformedManifest(_)));
    assert!(Manifest::new("pkg_a".to_string(), "1.2", Vec::new()).is_err());
}

fn empty_pkg(name: &str) -> Package {
    let m = Manifest::new(name.to_string(), "0.1.0", Vec::new()).unwrap();
    Package::load(name.to_string(), m, Vec::new(), Vec::new(), Vec::new(), Vec::new()).unwrap()
}

fn pkg_with_version(name: &str, version: &str) -> Package {
    let m = Manifest::new(name.to_string(), version, Vec::new()).unwrap();
    Package::load(name.to_string(), m, Vec::new(), Vec::new(), Vec::new(), Vec::new()).unwrap()
}

#[test]
fn version_conflict_fails_either_order() {
    let m = Manifest::new(
        "top".to_string(),
        "0.1.0",
        vec![
            ("dep_a".to_string(), "a".to_string()),
            ("dep_b".to_string(), "b".to_string()),
        ],
    )
    .unwrap();
    let a1 = pkg_with_version("shared", "1.0.0");
    let a2 = pkg_with_version("shared", "2.0.0");
    let e = Package::load(
        "top".to_string(),
        m,
        vec![a1, a2],
        Vec::new(),
        Vec::new(),
        Vec::new(),
    )
    .unwrap_err();
    assert!(matches!(e, LoadError::MultiDependencyVersionMismatch));
    // The same pair in the other order fails identically.
    let m = Manifest::new("top".to_string(), "0.1.0", Vec::new()).unwrap();
    let a1 = pkg_with_version("shared", "1.0.0");
    let a2 = pkg_with_version("shared", "2.0.0");
    let e = Package::load(
        "top".to_string(),
        m,
        vec![a2, a1],
        Vec::new(),
        Vec::new(),
        Vec::new(),
    )
    .unwrap_err();
    assert!(matches!(e, LoadError::MultiDependencyVersionMismatch));
    // Identical versions deduplicate instead.
    let m = Manifest::new("top".to_string(), "0.1.0", Vec::new()).unwrap();
    let a1 = pkg_with_version("shared", "1.0.0");
    let a2 = pkg_with_version("shared", "1.0.0");
    let p = Package::load(
        "top".to_string(),
        m,
        vec![a1, a2],
        Vec::new(),
        Vec::new(),
        Vec::new(),
    )
    .unwrap();
    assert_eq!(p.dependencies.len(), 1);
}

#[test]
fn empty_package_sprite_table() {
    let mut pkg = empty_pkg("test_pkg");
    let plan = pkg.assemble(".build").unwrap();
    assert_eq!(plan.files.len(), 2);
    assert_eq!(plan.files[0].path, ".build/sprite/SpriteTable.xml");
    let mut expected = String::new();
    for piece in [
        "<?xml version=\"1.0\" encoding=\"UTF-8\" standalone=\"no\"?>\n",
        "<SpriteTable>\n",
        "    <NpcSprites>\n",
        "    </NpcSprites>\n",
        "<PlayerSprites>\n",
        "    <Sprite id=\"1\" src=\"01\" name=\"Mario 1\"/>\n",
        "    <Sprite id=\"2\" src=\"02\" name=\"Mario 2\"/>\n",
        "    <Sprite id=\"3\" src=\"03\" name=\"Mario 3\"/>\n",
        "    <Sprite id=\"4\" src=\"04\" name=\"Mario 4\"/>\n",
        "    <Sprite id=\"5\" src=\"05\" name=\"Mario 5\"/>\n",
        "    <Sprite id=\"6\" src=\"06\" name=\"Mario 6\"/>\n",
        "    <Sprite id=\"7\" src=\"07\" name=\"Mario 7\"/>\n",
        "    <Sprite id=\"8\" src=\"08\" name=\"Mario 8\"/>\n",
        "    <Sprite id=\"9\" src=\"09\" name=\"Mario 9\"/>\n",
        "    <Sprite id=\"A\" src=\"0A\" name=\"Peach 1\"/>\n",
        "    <Sprite id=\"B\" src=\"0B\" name=\"Peach 2\"/>\n",
        "    <Sprite id=\"C\" src=\"0C\" name=\"Peach 3\"/>\n",
        "    <Sprite id=\"D\" src=\"0D\" name=\"Peach 4\"/>\n",
        "</PlayerSprites>\n",
        "</SpriteTable>",
    ] {
        expected.push_str(piece);
    }
    assert_eq!(plan.files[0].content, expected);
    assert_eq!(plan.files[1].path, ".build/battle/ActorTypes.xml");
}

#[test]
fn actor_assembly_rows() {
    let m = Manifest::new("test_pkg".to_string(), "0.1.0", Vec::new()).unwrap();
    let mut pkg = Package::load(
        "test_pkg".to_string(),
        m,
        Vec::new(),
        Vec::new(),
        vec![ActorSource {
            dir: "src/actor/_cool_actor".to_string(),
            name: "namestring".to_string(),
            tattle: "tattlestring".to_string(),
            script_source: "#new:Actor $Actor\n[Index] {Actor:_cool_actor}\n".to_string(),
        }],
        vec![TextSource {
            path: "src/string/strings.str".to_string(),
            source: "#string:01:(namestring)\n[END]\n\n#string:01:(tattlestring)\n[END]\n"
                .to_string(),
        }],
    )
    .unwrap();
    let plan = pkg.assemble(".build").unwrap();
    // One sprite table, two string files, the actor table, one actor script.
    assert_eq!(plan.files.len(), 5);
    assert_eq!(plan.files[1].path, ".build/strings/00010000.str");
    assert_eq!(plan.files[1].content, "#string:01:000\n[END]");
    assert_eq!(plan.files[2].path, ".build/strings/00010001.str");
    let table = &plan.files[3];
    assert_eq!(table.path, ".build/battle/ActorTypes.xml");
    assert!(table.content.contains("<Actor id=\"00\" name=\"00010000\" tattle=\"00010001\"/>"));
    // The actor's own script got its expression resolved to the index.
    let script = &plan.files[4];
    assert_eq!(script.path, ".build/battle/formation/import/actor/00__cool_actor.bpat");
    assert_eq!(script.content, "#new:Actor $Actor\n[Index] 00\n\n");
}

fn sheet(palettes: Vec<(&str, bool)>, animations: Vec<(&str, bool)>) -> XmlElem {
    let slot = |items: Vec<(&str, bool)>| -> Vec<XmlElem> {
        items
            .into_iter()
            .map(|(n, named)| XmlElem {
                name: "Slot".to_string(),
                attrs: if named {
                    vec![("name".to_string(), n.to_string())]
                } else {
                    Vec::new()
                },
                children: Vec::new(),
            })
            .collect()
    };
    XmlElem {
        name: "SpriteSheet".to_string(),
        attrs: Vec::new(),
        children: vec![
            XmlElem {
                name: "PaletteList".to_string(),
                attrs: Vec::new(),
                children: slot(palettes),
            },
            XmlElem {
                name: "AnimationList".to_string(),
                attrs: Vec::new(),
                children: slot(animations),
            },
        ],
    }
}

#[test]
fn sprite_loading_and_resolution() {
    let sp = Sprite::load(
        "src/sprite/goomba".to_string(),
        &sheet(vec![("Default", true), ("x", false)], vec![("Idle", true), ("Walk", true)]),
    )
    .unwrap();
    assert_eq!(sp.name(), "goomba");
    assert_eq!(sp.palettes, vec!["Default".to_string(), "1".to_string()]);
    assert_eq!(sp.animation_by_name("Walk"), Some(1));
    assert_eq!(sp.animation_by_name("Run"), None);

    let m = Manifest::new("test_pkg".to_string(), "0.1.0", Vec::new()).unwrap();
    let mut pkg = Package::load(
        "test_pkg".to_string(),
        m,
        Vec::new(),
        vec![SpriteSource {
            dir: "src/sprite/goomba".to_string(),
            sheet: sheet(
                vec![("Default", true)],
                vec![("Idle", true), ("Walk", true)],
            ),
        }],
        Vec::new(),
        Vec::new(),
    )
    .unwrap();
    let plan = pkg.assemble(".build").unwrap();
    assert!(plan.files[0]
        .content
        .contains("<Sprite id=\"1\" src=\"01\" name=\"test_pkg_goomba\"/>"));
    assert_eq!(plan.dir_copies.len(), 1);
    assert_eq!(plan.dir_copies[0].from, "src/sprite/goomba");
    assert_eq!(plan.dir_copies[0].to, ".build/sprite/npc/src/01");
}

#[test]
fn script_expression_resolution() {
    let mut sprites: Registry<Sprite> = Registry::new();
    sprites.insert(
        Identifier::new("pkg_a", "goomba"),
        Sprite {
            dir: "goomba".to_string(),
            palettes: vec!["Default".to_string(), "Red".to_string()],
            animations: vec!["Idle".to_string(), "Walk".to_string()],
            assembled_index: Some(3),
        },
    );
    let texts: Registry<Text> = Registry::new();
    let actors = Registry::new();
    let mut script = Script::load(
        "pkg_a",
        "t.bscr".to_string(),
        "use {Sprite:goomba} and {Sprite:goomba:Walk} and {Sprite:goomba:Walk:Red}\n",
    );
    script.resolve_expressions(&sprites, &texts, &actors).unwrap();
    assert_eq!(script.blocks[0].lines[0].1, "use 03 and 00030001 and 00030101");

    let mut script = Script::load("pkg_a", "t.bscr".to_string(), "bad {String:missing}\n");
    let e = script.resolve_expressions(&sprites, &texts, &actors).unwrap_err();
    assert!(e.message().contains("unknown string"));
    // Unknown forms are left untouched.
    let mut script = Script::load("pkg_a", "t.bscr".to_string(), "keep {Foo:bar} as is\n");
    script.resolve_expressions(&sprites, &texts, &actors).unwrap();
    assert_eq!(script.blocks[0].lines[0].1, "keep {Foo:bar} as is");
}

#[test]
fn dependency_exports_are_inherited_and_overridden() {
    let m = Manifest::new("dep_pkg".to_string(), "0.1.0", Vec::new()).unwrap();
    let dep = Package::load(
        "dep".to_string(),
        m,
        Vec::new(),
        Vec::new(),
        Vec::new(),
        vec![TextSource {
            path: "dep/src/string/s.str".to_string(),
            source: "#string:01:(shared)\nFROM DEP[END]\n".to_string(),
        }],
    )
    .unwrap();
    let m = Manifest::new(
        "top".to_string(),
        "0.1.0",
        vec![("dep_pkg".to_string(), "dep".to_string())],
    )
    .unwrap();
    let p = Package::load(
        "top".to_string(),
        m,
        vec![dep],
        Vec::new(),
        Vec::new(),
        vec![TextSource {
            path: "src/string/s.str".to_string(),
            source: "#string:01:(shared)\nFROM TOP[END]\n".to_string(),
        }],
    )
    .unwrap();
    // The dependency's export is visible under its own package name...
    let inherited = p.texts.get(&Identifier::new("dep_pkg", "shared")).unwrap();
    assert_eq!(inherited.string, "FROM DEP[END]");
    // ...and the top package's own same-named export lives beside it.
    let own = p.texts.get(&Identifier::new("top", "shared")).unwrap();
    assert_eq!(own.string, "FROM TOP[END]");
}
