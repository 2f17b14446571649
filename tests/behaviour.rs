use mime_globs::{determine_type, Glob, GlobMap, GlobType};
use mime_globs::{read_globs_v1_from_lines, read_globs_v2_from_lines};

fn lines(ls: &[&str]) -> Vec<String> {
    ls.iter().map(|l| l.to_string()).collect()
}

#[test]
fn classify_literal_keeps_text() {
    assert_eq!(determine_type(""), GlobType::Literal(String::new()));
    assert_eq!(
        determine_type("README.md"),
        GlobType::Literal("README.md".to_string())
    );
}

#[test]
fn classify_suffix_drops_star() {
    assert_eq!(determine_type("*"), GlobType::Simple(String::new()));
    assert_eq!(
        determine_type("*.tar.gz"),
        GlobType::Simple(".tar.gz".to_string())
    );
}

#[test]
fn classify_full_on_metacharacters() {
    assert_eq!(determine_type("a?c"), GlobType::Full("a?c".to_string()));
    assert_eq!(determine_type("**"), GlobType::Full("**".to_string()));
    assert_eq!(determine_type("x\\y"), GlobType::Full("x\\y".to_string()));
    assert_eq!(determine_type("a*b"), GlobType::Full("a*b".to_string()));
    assert_eq!(determine_type("[ab]c"), GlobType::Full("[ab]c".to_string()));
}

#[test]
fn v1_line_equals_direct_entry() {
    assert_eq!(
        Glob::from_v1_string("text/plain:README"),
        Some(Glob::new("text/plain", "README", 50, false))
    );
}

#[test]
fn v1_rejects_pattern_the_glob_engine_refuses() {
    assert_eq!(Glob::from_v1_string("text/x:[ab"), None);
}

#[test]
fn v2_weights() {
    assert_eq!(
        Glob::from_v2_string("0:text/x:*.x"),
        Some(Glob::new("text/x", "*.x", 0, false))
    );
    assert_eq!(
        Glob::from_v2_string("+7:text/x:*.x"),
        Some(Glob::new("text/x", "*.x", 7, false))
    );
    assert_eq!(
        Glob::from_v2_string("-0:text/x:*.x"),
        Some(Glob::new("text/x", "*.x", 0, false))
    );
    assert_eq!(
        Glob::from_v2_string("2147483647:text/x:*.x"),
        Some(Glob::new("text/x", "*.x", 2147483647, false))
    );
    assert_eq!(Glob::from_v2_string("-5:text/x:*.x"), None);
    assert_eq!(Glob::from_v2_string("2147483648:text/x:*.x"), None);
    assert_eq!(Glob::from_v2_string("abc:text/x:*.x"), None);
    assert_eq!(Glob::from_v2_string("+:text/x:*.x"), None);
    assert_eq!(Glob::from_v2_string(":text/x:*.x"), None);
}

#[test]
fn v2_field_shapes() {
    assert_eq!(Glob::from_v2_string("50:text/x:*.x:cs:extra"), None);
    assert_eq!(Glob::from_v2_string("50:text/x:*.x:CS"), None);
    assert_eq!(Glob::from_v2_string("50::*.x"), None);
    assert_eq!(Glob::from_v2_string("50:text/x:"), None);
    assert_eq!(Glob::from_v2_string("50:text/x:*.x:"), None);
}

#[test]
fn try_new_reports_bad_full_glob() {
    assert_eq!(Glob::try_new("text/x", "[ab", 50, false), None);
    assert_eq!(
        Glob::try_new("text/x", "*.[ab]", 50, false),
        Some(Glob::new("text/x", "*.[ab]", 50, false))
    );
    assert_eq!(
        Glob::try_new("text/x", "[ab", 50, false).is_none(),
        true
    );
}

#[test]
fn literal_ignores_case_flag() {
    let g = Glob::new("text/x-copying", "copying", 50, true);
    assert!(g.compare("COPYING"));
    assert!(g.compare("copying"));
    assert!(!g.compare("copying2"));
}

#[test]
fn suffix_case_rules() {
    let cs = Glob::new("text/x-c++src", "*.C", 50, true);
    assert!(cs.compare("foo.C"));
    assert!(!cs.compare("foo.c"));
    let ci = Glob::new("text/x-c++src", "*.C", 50, false);
    assert!(ci.compare("foo.C"));
    assert!(!ci.compare("foo.c"));
    let lower = Glob::new("text/x-csrc", "*.c", 50, false);
    assert!(lower.compare("FOO.C"));
    let lower_cs = Glob::new("text/x-csrc", "*.c", 50, true);
    assert!(!lower_cs.compare("FOO.C"));
    assert!(!lower.compare("c"));
}

#[test]
fn full_glob_ignores_case_flag() {
    let g = Glob::new("video/x-anim", "*.anim[1-9j]", 50, false);
    assert!(!g.compare("FOO.ANIMJ"));
    assert!(g.compare("foo.anim1"));
    assert!(g.compare("foo.anim9"));
}

#[test]
fn lookup_no_match_is_none() {
    let mut map = GlobMap::new();
    assert_eq!(map.lookup_mime_type_for_file_name("foo.c"), None);
    map.add_glob(Glob::new("text/x-csrc", "*.c", 50, false));
    assert_eq!(map.lookup_mime_type_for_file_name("foo.h"), None);
}

#[test]
fn lookup_orders_by_descending_weight() {
    let mut map = GlobMap::new();
    map.add_glob(Glob::new("low", "*.c", 10, false));
    map.add_glob(Glob::new("high", "*.c", 90, false));
    map.add_glob(Glob::new("mid", "foo.*", 50, false));
    map.add_glob(Glob::new("other", "*.h", 99, false));
    assert_eq!(
        map.lookup_mime_type_for_file_name("foo.c"),
        Some(vec!["high".to_string(), "mid".to_string(), "low".to_string()])
    );
}

#[test]
fn lookup_keeps_order_of_equal_weights() {
    let mut map = GlobMap::new();
    map.add_globs(vec![
        Glob::new("first", "*.c", 50, false),
        Glob::new("second", "*.c", 50, false),
        Glob::new("top", "*.c", 60, false),
        Glob::new("third", "*.c", 50, false),
        Glob::new("first", "*.c", 50, false),
    ]);
    assert_eq!(
        map.lookup_mime_type_for_file_name("x.c"),
        Some(vec![
            "top".to_string(),
            "first".to_string(),
            "second".to_string(),
            "third".to_string(),
            "first".to_string()
        ])
    );
}

#[test]
fn round_trip_through_both_formats() {
    assert_eq!(
        Glob::from_v2_string("123:application/x-foo:*.foo:cs"),
        Some(Glob::new("application/x-foo", "*.foo", 123, true))
    );
    assert_eq!(
        Glob::from_v2_string("0:text/x:Makefile"),
        Some(Glob::new("text/x", "Makefile", 0, false))
    );
    assert_eq!(
        Glob::from_v1_string("text/x:x*.[ch]"),
        Some(Glob::new("text/x", "x*.[ch]", 50, false))
    );
}

#[test]
fn loading_lines_skips_comments_blanks_and_bad_lines() {
    let v1 = read_globs_v1_from_lines(&lines(&[
        "# comment",
        "",
        "text/x-csrc:*.c",
        "#text/x-hidden:*.h",
        "broken",
        "text/plain:README",
    ]));
    assert_eq!(
        v1,
        vec![
            Glob::simple("text/x-csrc", "*.c"),
            Glob::simple("text/plain", "README")
        ]
    );
    let v2 = read_globs_v2_from_lines(&lines(&[
        "# comment",
        "80:text/x-csrc:*.c",
        "",
        "x:text/bad:*.b",
        "50:text/x-c++src:*.C:cs",
    ]));
    assert_eq!(
        v2,
        vec![
            Glob::with_weight("text/x-csrc", "*.c", 80),
            Glob::new("text/x-c++src", "*.C", 50, true)
        ]
    );
}

#[test]
fn accessors() {
    let g = Glob::new("text/x", "*.x", 7, false);
    assert_eq!(g.mime_type(), "text/x");
    assert_eq!(g.weight(), 7);
}

#[test]
fn canonical_lines_read_back() {
    let g = Glob::new("application/x-foo", "*.foo", 123, true);
    let line = g.to_v2_string().unwrap();
    assert_eq!(line, "123:application/x-foo:*.foo:cs");
    assert_eq!(Glob::from_v2_string(&line), Some(g));

    let h = Glob::new("text/x", "x*.[ch]", 0, false);
    let line = h.to_v2_string().unwrap();
    assert_eq!(line, "0:text/x:x*.[ch]");
    assert_eq!(Glob::from_v2_string(&line), Some(h));

    let k = Glob::simple("text/plain", "README");
    let line = k.to_v1_string();
    assert_eq!(line, "text/plain:README");
    assert_eq!(Glob::from_v1_string(&line), Some(k));

    assert_eq!(Glob::new("text/x", "*.x", -1, false).to_v2_string(), None);
}

#[test]
fn pattern_text_restores_star() {
    assert_eq!(determine_type("*.gif").pattern_text(), "*.gif");
    assert_eq!(determine_type("Makefile").pattern_text(), "Makefile");
    assert_eq!(determine_type("x*.[ch]").pattern_text(), "x*.[ch]");
}
