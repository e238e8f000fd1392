use pretty_assertions_sorted::assertion::{check_sorted_eq, sorted_text, SortedEqError};
use std::collections::HashMap;
use std::collections::HashSet;
use std::fmt;

const TEST_RERUNS_FOR_DETERMINISM: u32 = 100;

fn sorted_debug<T: fmt::Debug>(v: T) -> String {
    sorted_text(&format!("{:?}", v)).expect("can sort Debug output")
}

fn assert_eq_sorted_ok<L: fmt::Debug, R: fmt::Debug>(left: &L, right: &R) {
    let res = check_sorted_eq(&format!("{:?}", left), &format!("{:?}", right), None);
    if let Err(e) = res {
        panic!("{}", e.message());
    }
}

#[test]
fn noop_sorts() {
    for _ in 0..TEST_RERUNS_FOR_DETERMINISM {
        assert_eq!(sorted_debug(2), "2");
    }
}

#[test]
fn sorts_hashmap() {
    for _ in 0..TEST_RERUNS_FOR_DETERMINISM {
        // Note that we have to create the HashMaps each try
        // in order to induce non-determinism in the debug output.
        let item = {
            let mut map = HashMap::new();
            map.insert(1, true);
            map.insert(2, true);
            map.insert(20, true);
            map
        };

        let expected = "{\n    1: true,\n    2: true,\n    20: true,\n}";
        assert_eq!(sorted_debug(item), expected);
    }
}

#[test]
fn sorts_hashmaps_with_non_exhaustive_object_values() {
    #[allow(unused)]
    struct Foo {
        value: f32,
    }

    impl fmt::Debug for Foo {
        fn fmt(&self, f: &mut fmt::Formatter<'_>) -> fmt::Result {
            f.debug_struct("Foo")
                .field("value", &self.value)
                .finish_non_exhaustive()
        }
    }

    for _ in 0..TEST_RERUNS_FOR_DETERMINISM {
        let item = {
            let mut map = HashMap::new();
            map.insert(1, Foo { value: 10.1 });
            map.insert(32, Foo { value: 2.0 });
            map.insert(2, Foo { value: -1.5 });
            map
        };

        let expected = "{\n    1: Foo {\n        value: 10.1,\n        ..\n    },\n    2: Foo {\n        value: -1.5,\n        ..\n    },\n    32: Foo {\n        value: 2.0,\n        ..\n    },\n}";
        assert_eq!(sorted_debug(item), expected);
    }
}

#[test]
fn sorts_list() {
    #[allow(unused)]
    #[derive(Debug)]
    struct Foo {
        value: f32,
    }

    for _ in 0..TEST_RERUNS_FOR_DETERMINISM {
        let item = {
            let mut map = Vec::new();
            map.insert(0, Foo { value: 10.1 });
            map.insert(1, Foo { value: 2.0 });
            map.insert(2, Foo { value: -1.5 });
            map
        };

        let expected = "[\n    Foo {\n        value: -1.5,\n    },\n    Foo {\n        value: 10.1,\n    },\n    Foo {\n        value: 2.0,\n    },\n]";
        let sorted = sorted_debug(item);
        println!("{}", sorted);
        println!("{}", expected);
        assert_eq!(sorted, expected);
    }
}

#[test]
fn test_list_assert_eq_sorted() {
    #[allow(unused)]
    #[derive(Debug, PartialEq)]
    struct Foo {
        value: f32,
    }

    for _ in 0..TEST_RERUNS_FOR_DETERMINISM {
        let item = {
            let mut map = Vec::new();
            map.insert(0, Foo { value: 10.1 });
            map.insert(1, Foo { value: 2.0 });
            map.insert(2, Foo { value: -1.5 });
            map
        };

        let expected = vec![
            Foo { value: -1.5 },
            Foo { value: 10.1 },
            Foo { value: 2.0 },
        ];
        assert_eq_sorted_ok(&item, &expected);
    }
}

#[test]
fn test_list_assert_eq_sorted_1() {
    #[allow(unused)]
    #[derive(Debug, Clone, PartialEq)]
    struct Foo {
        value: f32,
    }

    let item = {
        let mut map = Vec::new();
        map.insert(0, Foo { value: 10.1 });
        map.insert(1, Foo { value: 2.0 });
        map.insert(2, Foo { value: -1.5 });
        map
    };

    let expected = vec![
        Foo { value: -1.5 },
        Foo { value: 10.1 },
        Foo { value: 2.0 },
    ];

    assert_eq_sorted_ok(&item, &expected);
}

#[test]
fn sorts_object_with_hashmap() {
    #[derive(Debug)]
    #[allow(unused)]
    struct Foo {
        bar: Bar,
    }

    #[derive(Debug)]
    #[allow(unused)]
    struct Bar {
        count: HashMap<&'static str, Zed>,
        value: usize,
    }

    #[derive(Debug)]
    struct Zed;

    for _ in 0..TEST_RERUNS_FOR_DETERMINISM {
        let item = Foo {
            bar: Bar {
                count: {
                    let mut map = HashMap::new();
                    map.insert("hello world", Zed);
                    map.insert("lorem ipsum", Zed);
                    map
                },
                value: 200,
            },
        };

        let expected = "Foo {\n    bar: Bar {\n        count: {\n            \"hello world\": Zed,\n            \"lorem ipsum\": Zed,\n        },\n        value: 200,\n    },\n}";
        assert_eq!(sorted_debug(item), expected);
    }
}

#[test]
fn hashmap_with_object_values() {
    #[derive(Debug)]
    #[allow(unused)]
    struct Foo {
        value: f32,
        bar: Vec<Bar>,
    }

    #[derive(Debug)]
    #[allow(unused)]
    struct Bar {
        elo: i32,
    }

    for _ in 0..TEST_RERUNS_FOR_DETERMINISM {
        let item = {
            let mut map = HashMap::new();
            map.insert(
                "foo",
                Foo {
                    value: 12.2,
                    bar: vec![Bar { elo: 200 }, Bar { elo: -12 }],
                },
            );
            map.insert(
                "foo2",
                Foo {
                    value: -0.2,
                    bar: vec![],
                },
            );
            map
        };

        let expected = "{\n    \"foo\": Foo {\n        value: 12.2,\n        bar: [\n            Bar {\n                elo: -12,\n            },\n            Bar {\n                elo: 200,\n            },\n        ],\n    },\n    \"foo2\": Foo {\n        value: -0.2,\n        bar: [],\n    },\n}";
        assert_eq!(sorted_debug(item), expected);
    }
}

#[test]
fn hashmap_with_object_keys() {
    #[derive(Debug, PartialEq, Eq, Hash)]
    struct Foo {
        value: i32,
        bar: Vec<Bar>,
    }

    #[derive(Debug, PartialEq, Eq, Hash)]
    struct Bar {
        elo: i32,
    }

    for _ in 0..TEST_RERUNS_FOR_DETERMINISM {
        let item = {
            let mut map = HashMap::new();
            map.insert(
                Foo {
                    value: 12,
                    bar: vec![Bar { elo: 200 }, Bar { elo: -12 }],
                },
                "foo",
            );
            map.insert(
                Foo {
                    value: -2,
                    bar: vec![],
                },
                "foo2",
            );
            map
        };

        let expected = "{\n    Foo {\n        value: -2,\n        bar: [],\n    }: \"foo2\",\n    Foo {\n        value: 12,\n        bar: [\n            Bar {\n                elo: -12,\n            },\n            Bar {\n                elo: 200,\n            },\n        ],\n    }: \"foo\",\n}";
        let sorted = sorted_debug(item);
        assert_eq!(sorted, expected);
    }
}

#[test]
fn hashmap_with_chrono_naivedate() {
    for _ in 0..TEST_RERUNS_FOR_DETERMINISM {
        let item = {
            let mut map = HashMap::new();
            map.insert(chrono::NaiveDate::from_ymd_opt(2000, 2, 14).unwrap(), "foo");
            map.insert(chrono::NaiveDate::from_ymd_opt(2001, 4, 2).unwrap(), "foo");
            map
        };

        let expected = "{\n    2000-02-14: \"foo\",\n    2001-04-02: \"foo\",\n}";
        assert_eq!(sorted_debug(item), expected);
    }
}

#[derive(PartialEq)]
#[allow(unused)]
struct FooWithOptionalField {
    value: Option<f32>,
}

impl fmt::Debug for FooWithOptionalField {
    fn fmt(&self, f: &mut fmt::Formatter<'_>) -> fmt::Result {
        let mut foo = f.debug_struct("FooWithOptionalField");
        if let Some(value) = &self.value {
            foo.field("value", value);
            foo.finish()
        } else {
            foo.finish_non_exhaustive()
        }
    }
}

#[test]
fn outputs_nice_output_for_non_exhaustive_objects_with_optional_fields() {
    assert_eq!(
        sorted_debug(FooWithOptionalField { value: Some(10.0) }),
        "FooWithOptionalField {\n    value: 10.0,\n}"
    );

    assert_eq!(
        sorted_debug(FooWithOptionalField { value: None }),
        "FooWithOptionalField {\n}"
    );
}

#[test]
fn fails_loudly_when_rendering_cannot_be_parsed() {
    // The rendering of a generic structured-data value does not follow
    // the native structural-debug grammar, so the check must abort.
    let res = check_sorted_eq("Object {\"a\": Number(0)}", "2", None);
    match res {
        Err(SortedEqError::Unparseable { message }) => {
            assert!(message.starts_with("Failed to parse Debug output for sorting"));
        }
        _ => panic!("expected a parse failure"),
    }
    assert!(sorted_text("Object {\"a\": Number(0)}").is_err());
}

#[test]
fn mismatch_reports_header_and_diff() {
    let res = check_sorted_eq("1", "2", None);
    match res {
        Err(SortedEqError::NotEqual { message }) => {
            assert!(message.starts_with("assertion failed: `(left == right)`\n\n"));
            assert!(message.ends_with("\n"));
            assert!(message.len() > "assertion failed: `(left == right)`\n\n\n".len());
        }
        _ => panic!("expected a mismatch"),
    }
}

#[test]
fn mismatch_includes_caller_message() {
    let res = check_sorted_eq("1", "2", Some("context here"));
    match res {
        Err(SortedEqError::NotEqual { message }) => {
            assert!(message.starts_with("assertion failed: `(left == right)`: context here\n\n"));
        }
        _ => panic!("expected a mismatch"),
    }
}

#[test]
fn maps_with_record_keys_compare_equal_across_insertion_orders() {
    #[derive(Debug, PartialEq, Eq, Hash)]
    struct Key {
        inner: Vec<i32>,
        name: &'static str,
    }

    for _ in 0..TEST_RERUNS_FOR_DETERMINISM {
        let mut left = HashMap::new();
        left.insert(Key { inner: vec![1, 2], name: "a" }, 1);
        left.insert(Key { inner: vec![3], name: "b" }, 2);

        let mut right = HashMap::new();
        right.insert(Key { inner: vec![3], name: "b" }, 2);
        right.insert(Key { inner: vec![1, 2], name: "a" }, 1);

        assert_eq!(sorted_debug(&left), sorted_debug(&right));
        assert_eq_sorted_ok(&left, &right);
    }
}

#[test]
fn empty_containers_render_on_one_line() {
    let empty_map: HashMap<i32, i32> = HashMap::new();
    assert_eq!(sorted_debug(empty_map), "{}");
    let empty_list: Vec<i32> = Vec::new();
    assert_eq!(sorted_debug(empty_list), "[]");
}

#[test]
fn tuples_are_sorted_too() {
    assert_eq!(sorted_debug((3, 1, 2)), "(\n    1,\n    2,\n    3,\n)");
}

#[test]
fn quoted_strings_keep_their_escapes() {
    assert_eq!(sorted_debug(vec!["b\nb", "a"]), "[\n    \"a\",\n    \"b\\nb\",\n]");
}

#[test]
fn deeply_nested_containers_are_normalized() {
    // Unordered containers three levels down are still sorted.
    #[derive(Debug)]
    #[allow(unused)]
    struct Outer {
        inner: Vec<HashMap<i32, Vec<i32>>>,
    }

    for _ in 0..TEST_RERUNS_FOR_DETERMINISM {
        let item = Outer {
            inner: vec![{
                let mut map = HashMap::new();
                map.insert(2, vec![3, 1, 2]);
                map.insert(1, vec![9, 8]);
                map
            }],
        };
        let expected = "Outer {\n    inner: [\n        {\n            1: [\n                8,\n                9,\n            ],\n            2: [\n                1,\n                2,\n                3,\n            ],\n        },\n    ],\n}";
        assert_eq!(sorted_debug(item), expected);
    }
}

#[test]
fn sorts_hashset() {
    for _ in 0..TEST_RERUNS_FOR_DETERMINISM {
        let item = {
            let mut set = HashSet::new();
            set.insert("foo");
            set.insert("bar");
            set.insert("zed");
            set
        };
        let expected = "{\n    \"bar\",\n    \"foo\",\n    \"zed\",\n}";
        assert_eq!(sorted_debug(item), expected);
    }
}

#[test]
fn named_tuples_keep_their_name() {
    #[derive(Debug)]
    struct Pair(i32, i32);

    assert_eq!(sorted_debug(Pair(2, 1)), "Pair(\n    1,\n    2,\n)");
}

#[test]
fn term_kinds_order_idents_before_strings_before_raw_tokens() {
    // A bare identifier sorts before a quoted string, which sorts before
    // any other raw token, matching the structural order on leaf terms.
    assert_eq!(
        sorted_debug((2, "a", true)),
        "(\n    true,\n    \"a\",\n    2,\n)"
    );
}
