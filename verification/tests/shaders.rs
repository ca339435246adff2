use orbit_engine::managers::resource::shaders::{
    resolve_all_includes, resolve_first_include, resolve_includes, IncludeError,
};

fn sources(pairs: &[(&str, &str)]) -> Vec<(String, String)> {
    pairs.iter().map(|(n, c)| (n.to_string(), c.to_string())).collect()
}

#[test]
fn code_without_includes_is_unchanged() {
    let s = sources(&[]);
    assert_eq!(resolve_includes("void main() {}", &s).ok(), Some(String::from("void main() {}")));
}

#[test]
fn an_include_is_replaced_by_the_file() {
    let s = sources(&[("constants.glsl", "#define PI 3.14")]);
    let r = resolve_includes("a\n#include \"constants.glsl\"\nb", &s).ok().unwrap();
    assert_eq!(r, "a\n#define PI 3.14\nb");
}

#[test]
fn angle_brackets_work_too() {
    let s = sources(&[("x.glsl", "X")]);
    let r = resolve_includes("#include <x.glsl>\n", &s).ok().unwrap();
    assert_eq!(r, "X\n");
}

#[test]
fn nested_includes_are_resolved() {
    let s = sources(&[("a.glsl", "A1\n#include \"b.glsl\"\nA2"), ("b.glsl", "B")]);
    let r = resolve_includes("#include \"a.glsl\"", &s).ok().unwrap();
    assert_eq!(r, "A1\nB\nA2");
}

#[test]
fn a_file_is_pasted_only_once() {
    let s = sources(&[("a.glsl", "A")]);
    let r = resolve_includes("#include \"a.glsl\"\n#include \"a.glsl\"\nend", &s).ok().unwrap();
    assert_eq!(r, "A\n\nend");
}

#[test]
fn a_file_including_itself_does_not_loop() {
    let s = sources(&[("a.glsl", "A\n#include \"a.glsl\"")]);
    let r = resolve_includes("#include \"a.glsl\"", &s).ok().unwrap();
    assert_eq!(r, "A\n");
}

#[test]
fn a_missing_file_is_reported() {
    let s = sources(&[("a.glsl", "A")]);
    match resolve_includes("#include \"b.glsl\"", &s) {
        Err(IncludeError::MissingSource(name)) => assert_eq!(name, "b.glsl"),
        _ => panic!("expected a missing source"),
    }
}

#[test]
fn non_ascii_text_around_includes_is_kept() {
    let s = sources(&[("a.glsl", "ü")]);
    let r = resolve_includes("é#include \"a.glsl\"ß", &s).ok().unwrap();
    assert_eq!(r, "éüß");
}

#[test]
fn all_sources_are_resolved() {
    let s = sources(&[("main.frag", "#include \"lib.glsl\"\nmain"), ("lib.glsl", "lib")]);
    let r = resolve_all_includes(&s).ok().unwrap();
    assert_eq!(r[0], (String::from("main.frag"), String::from("lib\nmain")));
    assert_eq!(r[1], (String::from("lib.glsl"), String::from("lib")));
}

#[test]
fn resolving_all_fails_on_a_missing_file() {
    let s = sources(&[("main.frag", "#include \"nope.glsl\"")]);
    assert!(matches!(resolve_all_includes(&s), Err(IncludeError::MissingSource(_))));
}

#[test]
fn one_step_pastes_the_named_file() {
    let s = sources(&[("x", "XX")]);
    let r = resolve_first_include("ab#include \"x\"cd", Some((2, 14, Some((12, 13)))), &vec![], &s);
    match r {
        Ok(Some((next, pasted))) => {
            assert_eq!(next, "abXXcd");
            assert_eq!(pasted, Some(String::from("x")));
        }
        _ => panic!("expected a pasted file"),
    }
}

#[test]
fn one_step_removes_a_repeated_include() {
    let s = sources(&[("x", "XX")]);
    let included = vec![String::from("x")];
    let r = resolve_first_include("ab#include \"x\"cd", Some((2, 14, Some((12, 13)))), &included, &s);
    match r {
        Ok(Some((next, pasted))) => {
            assert_eq!(next, "abcd");
            assert_eq!(pasted, None);
        }
        _ => panic!("expected a removed directive"),
    }
}

#[test]
fn one_step_counts_bytes_not_characters() {
    let s = sources(&[("y", "Y")]);
    let r = resolve_first_include("é#include <y>", Some((2, 14, Some((12, 13)))), &vec![], &s);
    match r {
        Ok(Some((next, _))) => assert_eq!(next, "éY"),
        _ => panic!("expected a pasted file"),
    }
}

#[test]
fn one_step_outcomes_without_a_file() {
    let s = sources(&[]);
    assert!(matches!(resolve_first_include("abc", None, &vec![], &s), Ok(None)));
    assert!(matches!(
        resolve_first_include("abc", Some((0, 1, None)), &vec![], &s),
        Err(IncludeError::Malformed)
    ));
    assert!(matches!(
        resolve_first_include("abc", Some((1, 1, Some((1, 1)))), &vec![String::new()], &s),
        Err(IncludeError::Malformed)
    ));
    match resolve_first_include("abc", Some((0, 3, Some((1, 2)))), &vec![], &s) {
        Err(IncludeError::MissingSource(f)) => assert_eq!(f, "b"),
        _ => panic!("expected a missing source"),
    }
}
