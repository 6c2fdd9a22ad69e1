use apply_method::Applicable;
use std::cell::Cell;
use std::collections::HashMap;
use std::path::PathBuf;

const BASE_DIR: &str = "/home/user/apply_method";

#[derive(Debug, PartialEq)]
struct Dog {
    name: String,
    size: String,
}

impl Dog {
    fn new() -> Self {
        Self {
            name: "Pochi".to_string(),
            size: "Middle".to_string(),
        }
    }
}

#[test]
fn test_apply() {
    let mut exact_path = PathBuf::from(BASE_DIR);
    exact_path.push("src/lib.rs");
    let path = PathBuf::from(BASE_DIR).apply(|it| it.push("src/lib.rs"));
    assert_eq!(path, exact_path);
}

#[test]
fn test_apply_twice() {
    let mut exact_path = PathBuf::from(BASE_DIR);
    exact_path.push("src/lib.rs");
    let path = PathBuf::from(BASE_DIR)
        .apply(|it| it.push("src"))
        .apply(|it| it.push("lib.rs"));
    assert_eq!(path, exact_path);
}

#[test]
fn test_apply_ohter_usage() {
    let mut exact_dog = Dog::new();
    exact_dog.size = "Big".to_string();
    let dog = Dog::new().apply(|it| it.size = "Big".to_string());
    assert_eq!(dog, exact_dog);
}

#[test]
fn test_apply_param() {
    let mut exact_path = PathBuf::from(BASE_DIR);
    exact_path.push("src/lib.rs");
    let path = PathBuf::from(BASE_DIR).apply_with_param(PathBuf::push, "src/lib.rs");
    assert_eq!(path, exact_path);
}

#[test]
fn test_apply_params() {
    let mut exact_path = PathBuf::from(BASE_DIR);
    exact_path.push("src");
    exact_path.push("lib.rs");
    let path = PathBuf::from(BASE_DIR).apply_with_params(PathBuf::push, vec!["src", "lib.rs"]);
    assert_eq!(path, exact_path);
}

#[test]
fn test_apply_non_unit_return_method_case() {
    let mut exact_map = HashMap::new();
    exact_map.insert(1, "one");
    exact_map.insert(2, "two");
    let map = HashMap::new()
        .apply(|it| it.insert(1, "one"))
        .apply(|it| it.insert(2, "two"));
    assert_eq!(map, exact_map);
}

#[test]
fn apply_matches_mutating_a_local() {
    let mut local = vec![3, 1, 2];
    local.sort();
    let applied = vec![3, 1, 2].apply(|it| it.sort());
    assert_eq!(applied, local);
    assert_eq!(applied, vec![1, 2, 3]);
}

#[test]
fn apply_calls_the_mutation_once() {
    let calls = Cell::new(0usize);
    let n = 10u32.apply(|it| {
        calls.set(calls.get() + 1);
        *it += 5;
    });
    assert_eq!(n, 15);
    assert_eq!(calls.get(), 1);
}

#[test]
fn chained_applies_keep_their_order() {
    let first_then_second = Vec::new()
        .apply(|it: &mut Vec<&str>| it.push("first"))
        .apply(|it| it.push("second"));
    assert_eq!(first_then_second, vec!["first", "second"]);
    let n = 2i64.apply(|it| *it += 3).apply(|it| *it *= 10);
    assert_eq!(n, 50);
    let m = 2i64.apply(|it| *it *= 10).apply(|it| *it += 3);
    assert_eq!(m, 23);
}

#[test]
fn apply_with_param_equals_apply_with_bound_closure() {
    let with_param = vec![1, 2].apply_with_param(Vec::push, 7);
    let with_closure = vec![1, 2].apply(|it| Vec::push(it, 7));
    assert_eq!(with_param, with_closure);
    assert_eq!(with_param, vec![1, 2, 7]);
}

#[test]
fn apply_with_param_forwards_the_parameter_once() {
    let calls = Cell::new(0usize);
    let s = String::from("ab").apply_with_param(
        |it: &mut String, p: char| {
            calls.set(calls.get() + 1);
            it.push(p)
        },
        'c',
    );
    assert_eq!(s, "abc");
    assert_eq!(calls.get(), 1);
}

#[test]
fn apply_with_params_on_no_parameters_is_a_no_op() {
    let calls = Cell::new(0usize);
    let v = vec![4, 5].apply_with_params(
        |it: &mut Vec<i32>, p: i32| {
            calls.set(calls.get() + 1);
            it.push(p)
        },
        Vec::new(),
    );
    assert_eq!(v, vec![4, 5]);
    assert_eq!(calls.get(), 0);
}

#[test]
fn apply_with_params_on_two_equals_two_single_applies() {
    let at_once = String::from("x").apply_with_params(String::push_str, vec!["-y", "-z"]);
    let in_turn = String::from("x")
        .apply_with_param(String::push_str, "-y")
        .apply_with_param(String::push_str, "-z");
    assert_eq!(at_once, in_turn);
    assert_eq!(at_once, "x-y-z");
}

#[test]
fn apply_with_params_sees_each_earlier_result() {
    let n = 1u64.apply_with_params(|it: &mut u64, p: u64| *it = *it * 10 + p, vec![2, 3, 4]);
    assert_eq!(n, 1234);
}

#[test]
fn path_built_by_two_applies_equals_direct_pushes() {
    let mut direct = PathBuf::new();
    direct.push("src/lib");
    direct.push("config.txt");
    let applied = PathBuf::new()
        .apply(|it| it.push("src/lib"))
        .apply(|it| it.push("config.txt"));
    assert_eq!(applied, direct);
    assert_eq!(applied, PathBuf::from("src/lib/config.txt"));
}

#[test]
fn map_filled_by_two_applies_holds_exactly_both_entries() {
    let map = HashMap::new()
        .apply(|it| it.insert(1, "one"))
        .apply(|it| it.insert(2, "two"));
    assert_eq!(map.len(), 2);
    assert_eq!(map.get(&1), Some(&"one"));
    assert_eq!(map.get(&2), Some(&"two"));
}

#[test]
fn apply_with_params_appends_in_order_with_one_call_each() {
    let calls = Cell::new(0usize);
    let v = Vec::new().apply_with_params(
        |it: &mut Vec<&str>, p: &'static str| {
            calls.set(calls.get() + 1);
            it.push(p)
        },
        vec!["a", "b"],
    );
    assert_eq!(v, vec!["a", "b"]);
    assert_eq!(calls.get(), 2);
}
