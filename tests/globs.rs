use mime_globs::{determine_type, Glob, GlobType};

#[test]
fn glob_type() {
    assert_eq!(
        determine_type("Makefile"),
        GlobType::Literal("Makefile".to_string())
    );

    assert_eq!(
        determine_type("*.gif"),
        GlobType::Simple(".gif".to_string())
    );

    assert_eq!(
        determine_type("x*.[ch]"),
        GlobType::Full("x*.[ch]".to_string())
    )
}

#[test]
fn glob_v1_string() {
    assert_eq!(
        Glob::from_v1_string("text/rust:*.rs"),
        Some(Glob::simple("text/rust", "*.rs"))
    );
    assert_eq!(
        Glob::from_v1_string("text/rust:*.rs"),
        Some(Glob::new("text/rust", "*.rs", 50, false))
    );

    assert_eq!(Glob::from_v1_string(""), None);
    assert_eq!(Glob::from_v1_string("foo"), None);
    assert_eq!(Glob::from_v1_string("foo:"), None);
    assert_eq!(Glob::from_v1_string(":bar"), None);
    assert_eq!(Glob::from_v1_string(":"), None);
    assert_eq!(Glob::from_v1_string("foo:bar:baz"), None);
}

#[test]
fn glob_v2_string() {
    assert_eq!(
        Glob::from_v2_string("80:text/rust:*.rs"),
        Some(Glob::with_weight("text/rust", "*.rs", 80))
    );
    assert_eq!(
        Glob::from_v2_string("80:text/rust:*.rs"),
        Some(Glob::new("text/rust", "*.rs", 80, false))
    );
    assert_eq!(
        Glob::from_v2_string("50:text/x-c++src:*.C:cs"),
        Some(Glob::new("text/x-c++src", "*.C", 50, true))
    );

    assert_eq!(Glob::from_v2_string(""), None);
    assert_eq!(Glob::from_v2_string("foo"), None);
    assert_eq!(Glob::from_v2_string("foo:"), None);
    assert_eq!(Glob::from_v2_string(":bar"), None);
    assert_eq!(Glob::from_v2_string(":"), None);
    assert_eq!(Glob::from_v2_string("foo:bar:baz"), None);
    assert_eq!(Glob::from_v2_string("foo:bar:baz:blah"), None);
}

#[test]
fn compare() {
    // Literal
    let copying = Glob::new("text/x-copying", "copying", 50, false);
    assert_eq!(copying.compare(&"COPYING".to_string()), true);

    // Simple, case-insensitive
    let c_src = Glob::new("text/x-csrc", "*.c", 50, false);
    assert_eq!(c_src.compare(&"foo.c".to_string()), true);
    assert_eq!(c_src.compare(&"FOO.C".to_string()), true);

    // Simple, case-sensitive
    let cplusplus_src = Glob::new("text/x-c++src", "*.C", 50, true);
    assert_eq!(cplusplus_src.compare(&"foo.C".to_string()), true);
    assert_eq!(cplusplus_src.compare(&"foo.c".to_string()), false);
    assert_eq!(cplusplus_src.compare(&"foo.h".to_string()), false);

    // Full
    let video_x_anim = Glob::new("video/x-anim", "*.anim[1-9j]", 50, false);
    assert_eq!(video_x_anim.compare(&"foo.anim0".to_string()), false);
    assert_eq!(video_x_anim.compare(&"foo.anim8".to_string()), true);
    assert_eq!(video_x_anim.compare(&"foo.animk".to_string()), false);
    assert_eq!(video_x_anim.compare(&"foo.animj".to_string()), true);
}
