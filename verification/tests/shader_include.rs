use ggg::shader_include::{find_includes, splice_includes, IncludeDirective, INCLUDE_PATTERN};

#[test]
fn finds_include_directives_in_order() {
    let text = "a\n#include \"x.glsl\"\nb\n#include \"dir/y.glsl\"\n";
    let directives = find_includes(text).unwrap();
    assert_eq!(directives.len(), 2);
    let first = directives[0];
    assert_eq!(&text[first.start..first.end], "#include \"x.glsl\"");
    assert_eq!(&text[first.path_start..first.path_end], "x.glsl");
    assert_eq!(first, IncludeDirective { start: 2, end: 19, path_start: 12, path_end: 18 });
    let second = directives[1];
    assert_eq!(&text[second.path_start..second.path_end], "dir/y.glsl");
}

#[test]
fn include_path_reaches_the_last_quote_of_the_line() {
    let text = "#include \"a\" \"b\"\nrest";
    let directives = find_includes(text).unwrap();
    assert_eq!(directives.len(), 1);
    assert_eq!(&text[directives[0].path_start..directives[0].path_end], "a\" \"b");
}

#[test]
fn text_without_directives_has_none() {
    assert!(find_includes("void main() {}").unwrap().is_empty());
    assert!(find_includes("#include \"\"").unwrap().is_empty());
    assert_eq!(INCLUDE_PATTERN, "#include \"(.+)\"");
}

#[test]
fn splicing_replaces_each_directive() {
    let text = "a\n#include \"x.glsl\"\nb\n#include \"y.glsl\"\n";
    let directives = find_includes(text).unwrap();
    let included = vec!["X".to_string(), "YY".to_string()];
    assert_eq!(splice_includes(text, &directives, &included).unwrap(), "a\nX\nb\nYY\n");
}

#[test]
fn splicing_keeps_multibyte_characters() {
    let text = "é#include \"p\"ü";
    let directives = find_includes(text).unwrap();
    assert_eq!(directives[0].start, 2);
    assert_eq!(splice_includes(text, &directives, &vec!["ß".to_string()]).unwrap(), "éßü");
}

#[test]
fn splicing_refuses_directives_that_do_not_fit() {
    let text = "0123456789";
    let overlapping = vec![
        IncludeDirective { start: 2, end: 5, path_start: 0, path_end: 0 },
        IncludeDirective { start: 4, end: 6, path_start: 0, path_end: 0 },
    ];
    let included = vec![String::new(), String::new()];
    assert_eq!(splice_includes(text, &overlapping, &included), None);
    let past_end = vec![IncludeDirective { start: 8, end: 11, path_start: 0, path_end: 0 }];
    assert_eq!(splice_includes(text, &past_end, &vec![String::new()]), None);
    let inside_a_character = vec![IncludeDirective { start: 1, end: 2, path_start: 0, path_end: 0 }];
    assert_eq!(splice_includes("é", &inside_a_character, &vec![String::new()]), None);
    assert_eq!(splice_includes(text, &vec![], &vec![]), Some(text.to_string()));
}
