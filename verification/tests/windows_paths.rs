use hk::component::PathStyle;
use hk::ordered_map::OrderedMap;
use hk::path::{collect, FilePath, PathOrder};
use hk::step::types::{Platform, Script, Step};
use hk::test_run::{directory_of, run_test_named, TestAction, TestEvent, TestRun};
use hk::test_runner::{Expectation, RunKind, StepTest};
use std::path::Path;

fn text(s: &str) -> String {
    s.to_string()
}

fn path(s: &str) -> FilePath {
    FilePath::from_text(s, PathStyle::Windows)
}

fn join(base: &str, p: &str) -> String {
    path(base).join(&path(p)).display()
}

fn parent(s: &str) -> Option<String> {
    path(s).parent().map(|p| p.display())
}

#[test]
fn platforms_have_path_styles() {
    assert_eq!(Platform::Windows.path_style(), PathStyle::Windows);
    assert_eq!(Platform::Linux.path_style(), PathStyle::Unix);
    assert_eq!(Platform::Macos.path_style(), PathStyle::Unix);
    assert_eq!(Platform::Other.path_style(), PathStyle::Unix);
}

#[test]
fn windows_path_is_absolute_with_prefix_and_root() {
    for s in vec![
        r"C:\a",
        "c:/a",
        r"\\server\share",
        r"\\server\share\a",
        r"\\?\C:\a",
        r"\\?\C:",
        r"\\?\UNC\server\share",
        r"\\.\COM1",
        r"//server/share/a",
    ] {
        assert!(path(s).is_absolute(), "{}", s);
    }
    for s in vec!["", "a", r"\a", "/a", "C:", "C:a", r".\a", r"\\server", r"\\server\\share", "1:/a"] {
        assert!(!path(s).is_absolute(), "{}", s);
    }
}

#[test]
fn windows_paths_with_a_prefix_are_kept() {
    assert_eq!(join(r"C:\base", r"D:\a"), r"D:\a");
    assert_eq!(join(r"C:\base", "D:/a"), "D:/a");
    assert_eq!(join(r"C:\base", "D:a"), "D:a");
    assert_eq!(join(r"C:\base", r"\\server\share\a"), r"\\server\share\a");
    assert_eq!(join(r"\\?\C:\base", r"D:\a"), r"D:\a");
}

#[test]
fn windows_paths_lead_from_directories() {
    assert_eq!(join(r"C:\base", r"a\b"), r"C:\base\a\b");
    assert_eq!(join(r"C:\base", "a/b"), r"C:\base\a/b");
    assert_eq!(join(r"C:\base\", "a"), r"C:\base\a");
    assert_eq!(join("C:/base/", "a"), "C:/base/a");
    assert_eq!(join("C:", "a"), "C:a");
    assert_eq!(join("", "a"), "a");
    assert_eq!(join(r"C:\base", r"\a"), r"C:\a");
    assert_eq!(join(r"\\server\share\base", "/a"), r"\\server\share/a");
    assert_eq!(join(r"C:\base", ""), r"C:\base\");
}

#[test]
fn verbatim_windows_directories_resolve_dots() {
    assert_eq!(join(r"\\?\C:\base", "a/b"), r"\\?\C:\base\a\b");
    assert_eq!(join(r"\\?\C:\base", r".\a\.\b"), r"\\?\C:\base\a\b");
    assert_eq!(join(r"\\?\C:\base\x", r"..\a"), r"\\?\C:\base\a");
    assert_eq!(join(r"\\?\C:\base", r"..\..\.."), r"\\?\C:\");
    assert_eq!(join(r"\\?\C:", "a"), r"\\?\C:\a");
    assert_eq!(join(r"\\?\C:", r".."), r"\\?\C:");
    assert_eq!(join(r"\\?\C:\base", r"\a"), r"\\?\C:\a");
    assert_eq!(join(r"\\?\UNC\server\share\x", r"\a"), r"\\?\UNC\server\share\a");
    assert_eq!(join(r"\\?\C:\base\.\x", "a"), r"\\?\C:\base\.\x\a");
    assert_eq!(join(r"\\?\C:\base\..", r"..\a"), r"\\?\C:\base\..\a");
    assert_eq!(join(r"\\?\C:\base", ""), r"\\?\C:\base\");
}

#[test]
fn windows_prefixes_are_compared_by_components() {
    assert!(path(r"C:\tmp\x\a").starts_with(&path(r"C:\tmp\x")));
    assert!(path(r"c:/tmp/x/a").starts_with(&path(r"C:\tmp\x\")));
    assert!(!path(r"C:\tmp\xy").starts_with(&path(r"C:\tmp\x")));
    assert!(!path(r"D:\tmp\x").starts_with(&path(r"C:\tmp")));
    assert!(!path(r"C:tmp").starts_with(&path(r"C:\")));
    assert!(path(r"\\server\share\a").starts_with(&path(r"//server/share")));
    assert!(!path(r"\\server\other\a").starts_with(&path(r"\\server\share")));
    assert!(!path(r"\\?\C:\tmp\a").starts_with(&path(r"C:\tmp")));
    assert!(path(r"\\?\C:\tmp\a").starts_with(&path(r"\\?\c:\tmp")));
    // A slash is no separator in a verbatim path.
    assert!(!path(r"\\?\C:\tmp/a").starts_with(&path(r"\\?\C:\tmp")));
}

#[test]
fn windows_parents_drop_the_last_component() {
    assert_eq!(parent(r"C:\a\b"), Some(text(r"C:\a")));
    assert_eq!(parent(r"C:\a/b\"), Some(text(r"C:\a")));
    assert_eq!(parent(r"C:\a"), Some(text(r"C:\")));
    assert_eq!(parent(r"C:\"), None);
    assert_eq!(parent("C:a"), Some(text("C:")));
    assert_eq!(parent("C:"), None);
    assert_eq!(parent(r"C:.\a"), Some(text("C:.")));
    assert_eq!(parent("C:."), None);
    assert_eq!(parent(r"\a"), Some(text(r"\")));
    assert_eq!(parent("."), Some(text("")));
    assert_eq!(parent("a"), Some(text("")));
    assert_eq!(parent(r"\\server\share\a"), Some(text(r"\\server\share\")));
    assert_eq!(parent(r"\\server\share"), None);
    assert_eq!(parent(r"\\?\C:\a\b"), Some(text(r"\\?\C:\a")));
    assert_eq!(parent(r"\\?\C:\a\."), Some(text(r"\\?\C:\a")));
    assert_eq!(directory_of(&path("Cargo.toml")).display(), ".");
    assert_eq!(directory_of(&path(r"C:\a\Cargo.toml")).display(), r"C:\a");
}

#[test]
fn windows_paths_are_ordered_by_components() {
    // Each comes before the next.
    let list = vec![
        r"\\?\name\a",
        r"\\?\UNC\server\share",
        r"\\?\UNC\server\share\a",
        r"\\?\C:\a",
        r"\\.\COM1",
        r"\\a\z",
        r"\\b\a",
        r"\\b\b",
        "C:",
        r"C:\",
        r"C:\a",
        "C:a",
        r"D:\a",
        r"\a",
        r".\a",
        r"..\a",
        r"a\b",
        "a.b",
    ];
    for i in 0..list.len() {
        for j in 0..list.len() {
            let o = path(list[i]).order(&path(list[j]));
            let expected = if i < j {
                PathOrder::Before
            } else if i == j {
                PathOrder::Same
            } else {
                PathOrder::After
            };
            assert_eq!(o, expected, "{} {}", list[i], list[j]);
        }
    }
    assert_eq!(path(r"c:\a\.\b").order(&path("C:/a//b/")), PathOrder::Same);
    assert_eq!(path(r"C:\a").order(&path(r"C:\A")), PathOrder::After);
    let set = collect(&vec![path(r"C:\a"), path("c:/a/"), path(r"C:\b")]);
    assert_eq!(set.len(), 2);
}

#[test]
fn windows_test_works_in_its_sandbox() {
    let mut step = Step::default();
    step.name = text("lint");
    step.check = Some(Script::from_str("lint"));
    let test = StepTest {
        run: RunKind::Check,
        files: Some(vec![text("{{tmp}}/a")]),
        write: OrderedMap::new(),
        fixture: None,
        env: OrderedMap::new(),
        before: None,
        after: None,
        tmpdir: None,
        expect: Expectation { code: 0, stdout: None, stderr: None, files: OrderedMap::new() },
    };
    for (sandbox, file, base) in vec![
        (r"C:\tmp\x", r"C:\tmp\x\a", r"C:\tmp\x"),
        (r"C:\tmp\x", "c:/tmp/x/a", r"C:\tmp\x"),
        (r"C:\tmp\x", r"D:\tmp\x\a", r"C:\repo"),
    ] {
        let (run, _): (TestRun, TestAction<&'static str>) =
            run_test_named(Platform::Windows, path(sandbox), path(r"C:\repo"));
        let event: TestEvent<&'static str> =
            TestEvent::Names { writes: vec![], files: vec![Some(text(file))] };
        let (run, _) = run.step(&step, &test, "t", 0, event);
        assert_eq!(run.base.display(), base);
        assert_eq!(run.files[0].display(), file);
    }
}

#[test]
fn unix_paths_behave_as_those_of_the_system() {
    let list = vec![
        "", ".", "..", "/", "//", "a", "a/", "/a", "a/b", "a//b", "a/./b", "./a", "a/.", "../a",
        "/..", "./", "/./a", ".a", "a/..", "a b/c", r"a\b", "C:/a", "C:",
    ];
    for a in list.clone() {
        let x = FilePath::from_text(a, PathStyle::Unix);
        assert_eq!(x.is_absolute(), Path::new(a).is_absolute(), "{}", a);
        assert_eq!(
            x.parent().map(|p| p.display()),
            Path::new(a).parent().map(|p| p.display().to_string()),
            "{}",
            a
        );
        for b in list.clone() {
            let y = FilePath::from_text(b, PathStyle::Unix);
            assert_eq!(x.join(&y).display(), Path::new(a).join(b).display().to_string());
            assert_eq!(x.starts_with(&y), Path::new(a).starts_with(b), "{} {}", a, b);
            assert_eq!(x.order(&y) == PathOrder::Same, Path::new(a) == Path::new(b));
            assert_eq!(x.order(&y) == PathOrder::Before, Path::new(a) < Path::new(b));
        }
    }
}

#[test]
fn unpaired_surrogates_are_shown_once() {
    let shown = |bytes: Vec<u8>, style: PathStyle| FilePath { bytes, style }.display();
    // U+D800 and U+DFFF stand alone, each between letters.
    let bytes = vec![97, 237, 160, 128, 98, 237, 191, 191, 99];
    assert_eq!(shown(bytes.clone(), PathStyle::Windows), "a\u{fffd}b\u{fffd}c");
    assert_eq!(
        shown(bytes, PathStyle::Unix),
        "a\u{fffd}\u{fffd}\u{fffd}b\u{fffd}\u{fffd}\u{fffd}c"
    );
    // U+D7FF is a character.
    assert_eq!(shown(vec![237, 159, 191], PathStyle::Windows), "\u{d7ff}");
    assert_eq!(shown(vec![97, 237], PathStyle::Windows), "a\u{fffd}");
}

#[test]
fn keys_tell_paths_apart() {
    assert_eq!(path(r"c:\a\.\b").key(), path("C:/a//b").key());
    assert_ne!(path(r"C:\a").key(), path("C:a").key());
    assert_ne!(path(r"\\a\bc").key(), path(r"\\ab\c").key());
    assert_ne!(path("ab").key(), path(r"a\b").key());
    assert_ne!(path("..").key(), path("...").key());
}
