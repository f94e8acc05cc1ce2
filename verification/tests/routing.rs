use rsvelte::path::prepend_path;
use rsvelte::routing::{match_pattern, split_slash, str_eq};

fn pairs(v: &[(&str, &str)]) -> Vec<(String, String)> {
    v.iter().map(|(a, b)| (a.to_string(), b.to_string())).collect()
}

#[test]
fn users_id_matches_and_binds() {
    let r = match_pattern("/users/:id", "/users/42", &["id"]);
    assert_eq!(r, Some(pairs(&[("id", "42")])));
}

#[test]
fn literal_mismatch_is_none() {
    assert_eq!(match_pattern("/users/:id", "/posts/42", &["id"]), None);
}

#[test]
fn segment_count_mismatch_is_none() {
    assert_eq!(match_pattern("/users/:id", "/users/42/edit", &["id"]), None);
    assert_eq!(match_pattern("/", "/users", &[]), None);
}

#[test]
fn root_matches_root() {
    assert_eq!(match_pattern("/", "/", &[]), Some(vec![]));
}

#[test]
fn several_params_bind_in_order() {
    let r = match_pattern("/a/:x/b/:y", "/a/1/b/two", &["first", "second"]);
    assert_eq!(r, Some(pairs(&[("first", "1"), ("second", "two")])));
}

#[test]
fn mismatch_before_missing_name_is_none() {
    // the literal segment differs before the unnamed parameter is reached
    assert_eq!(match_pattern("/a/:x", "/b/1", &[]), None);
}

#[test]
fn empty_param_segment_value() {
    assert_eq!(match_pattern("/u/:id", "/u/", &["id"]), Some(pairs(&[("id", "")])));
}

#[test]
fn split_keeps_empty_segments() {
    assert_eq!(split_slash("/users/42"), vec!["", "users", "42"]);
    assert_eq!(split_slash(""), vec![""]);
    assert_eq!(split_slash("a//b/"), vec!["a", "", "b", ""]);
}

#[test]
fn str_eq_compares_chars() {
    assert!(str_eq("click", "click"));
    assert!(!str_eq("click", "input"));
    assert!(!str_eq("ab", "abc"));
}

#[test]
fn prepend_puts_addition_first() {
    assert_eq!(prepend_path(&vec![3, 7], 1), vec![1, 3, 7]);
    assert_eq!(prepend_path(&vec![], 9), vec![9]);
}

#[test]
fn match_round_trip_gives_the_path_back() {
    let pattern = "/users/:id/posts/:pid";
    let path = "/users/7/posts/9";
    let names = ["id", "pid", "extra"];
    let bound = match_pattern(pattern, path, &names).unwrap();
    let mut values = bound.iter().map(|p| p.1.clone());
    let rebuilt: Vec<String> = split_slash(pattern)
        .iter()
        .map(|seg| if seg.starts_with(':') { values.next().unwrap() } else { seg.to_string() })
        .collect();
    assert_eq!(rebuilt.join("/"), path);
    let bound_names: Vec<&str> = bound.iter().map(|p| p.0.as_str()).collect();
    assert_eq!(bound_names, names[..bound.len()].to_vec());
}
