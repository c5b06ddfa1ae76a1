use phlow::yaml::{
    chars_to_string, escape_quotes, find_sub, str_chars, trim_chars, wrap_eval, yaml_helpers_eval,
};

fn chars(s: &str) -> Vec<char> {
    s.chars().collect()
}

#[test]
fn str_chars_round_trip() {
    let v = str_chars("a\"b c");
    assert_eq!(v, vec!['a', '"', 'b', ' ', 'c']);
    assert_eq!(chars_to_string(&v), "a\"b c".to_string());
    assert_eq!(str_chars(""), Vec::<char>::new());
}

#[test]
fn escape_doubles_quotes() {
    let out = escape_quotes(&chars("say \"hi\""));
    assert_eq!(chars_to_string(&out), "say \\\"hi\\\"".to_string());
    let out = escape_quotes(&chars("plain"));
    assert_eq!(chars_to_string(&out), "plain".to_string());
}

#[test]
fn trim_removes_edge_whitespace() {
    assert_eq!(chars_to_string(&trim_chars(&chars("  x y\t"))), "x y".to_string());
    assert_eq!(chars_to_string(&trim_chars(&chars("\t \r\n"))), String::new());
    assert_eq!(chars_to_string(&trim_chars(&chars("solid"))), "solid".to_string());
}

#[test]
fn find_sub_locates_first_occurrence() {
    let hay = chars("a !eval x !eval y");
    let needle = chars("!eval");
    assert_eq!(find_sub(&hay, &needle, 0), Some(2));
    assert_eq!(find_sub(&hay, &needle, 3), Some(10));
    assert_eq!(find_sub(&hay, &needle, 11), None);
    assert_eq!(find_sub(&chars("short"), &chars("longer pattern"), 0), None);
}

#[test]
fn wrap_eval_builds_the_template() {
    let out = wrap_eval(&chars("1 + \"a\""));
    assert_eq!(chars_to_string(&out), "\"{{ 1 + \\\"a\\\" }}\"".to_string());
}

#[test]
fn eval_inline_becomes_quoted_template() {
    let out = yaml_helpers_eval("a: !eval 1 + 2");
    assert_eq!(out, "a: \"{{ 1 + 2 }}\"".to_string());
}

#[test]
fn eval_leaves_plain_lines_alone() {
    let src = "a: 1\nb:\n  - x\n  - y";
    assert_eq!(yaml_helpers_eval(src), src.to_string());
}

#[test]
fn eval_fenced_block_joins_lines() {
    let src = "x: !eval ```\n  1 +\n  2\n```\nafter: 3";
    let out = yaml_helpers_eval(src);
    assert_eq!(out, "x: \"{{ 1 + 2 }}\"\nafter: 3".to_string());
}

#[test]
fn eval_inline_fence_on_one_line() {
    let out = yaml_helpers_eval("x: !eval ```1 + 2```");
    assert_eq!(out, "x: \"{{ 1 + 2 }}\"".to_string());
}

#[test]
fn eval_indented_block_joins_lines() {
    let src = "x: !eval\n     1 +\n     2\nafter: 3";
    let out = yaml_helpers_eval(src);
    assert_eq!(out, "   \"{{ 1 + 2 }}\"\nafter: 3".to_string());
}

#[test]
fn eval_escapes_quotes_in_expressions() {
    let out = yaml_helpers_eval("m: !eval say(\"hi\")");
    assert_eq!(out, "m: \"{{ say(\\\"hi\\\") }}\"".to_string());
}

#[test]
fn eval_output_parses_like_the_inline_template() {
    let transformed = yaml_helpers_eval("v: !eval 1 + 2");
    let a: serde_yaml::Value = serde_yaml::from_str(&transformed).expect("transformed yaml parses");
    let b: serde_yaml::Value =
        serde_yaml::from_str("v: \"{{ 1 + 2 }}\"").expect("inline template parses");
    assert_eq!(a, b);
}
