use stracer::strings::{
    concat_all, concat_all_with_map, copy_me, find_lesser_values, pick_longest2, str_concat,
    string_concat,
};
use stracer::text::{parse_u64, str_eq, str_lt};

#[test]
fn str_concat_tests() {
    assert_eq!(str_concat("hello ", "world"), "hello world");
}

#[test]
fn string_concat_tests() {
    let s1 = "hello ".to_string();
    let s2 = "world".to_string();
    assert_eq!(string_concat(&s1, &s2), "hello world");
}

#[test]
fn concat_with_empty_strings() {
    assert_eq!(str_concat("", ""), "");
    assert_eq!(str_concat("", "b"), "b");
    assert_eq!(string_concat(&"a".to_string(), &String::new()), "a");
}

#[test]
fn concat_all_tests() {
    let vs1: Vec<String> = ["33", "44", "55"].iter().map(|x| x.to_string()).collect();
    let vs2 = vs1.clone();
    assert_eq!(concat_all(vs1), vec![33u64, 44, 55]);
    assert_eq!(concat_all_with_map(vs2), vec![33u64, 44, 55]);
}

#[test]
fn concat_all_reads_the_largest_number() {
    let vs = vec!["18446744073709551615".to_string(), "+7".to_string(), "000".to_string()];
    assert_eq!(concat_all(vs), vec![u64::MAX, 7, 0]);
}

#[test]
fn parse_u64_agrees_with_the_standard_parser() {
    let cases = [
        "", "+", "-", "0", "+0", "-0", "7", "+7", "++7", "+-7", "007", " 7", "7 ", "7a", "a7",
        "18446744073709551615", "18446744073709551616", "99999999999999999999", "1_000",
        "0x10", "١٢٣", "12é",
    ];
    for case in cases {
        assert_eq!(parse_u64(case), case.parse::<u64>().ok(), "{:?}", case);
    }
}

#[test]
fn copy_string_test() {
    let str1 = String::from("foo");
    let str2 = str1.clone();
    assert_eq!(str1, str2);
}

#[test]
fn copy_int_test() {
    let i1 = 1;
    let i2 = i1;
    assert_eq!(i1, i2);
}

#[test]
fn eat_me_test() {
    let str1 = String::from("foo");
    assert_eq!(str1, copy_me(&str1));
}

#[test]
fn eat_me_test2() {
    let str1 = String::from("foo");
    let str2 = copy_me(&str1);
    assert_eq!(str1, str2);
}

#[test]
fn pick_longest2_tests() {
    assert_eq!(pick_longest2("cat", "dog"), "cat");
    assert_eq!(pick_longest2("c", "abcde"), "abcde");
}

#[test]
fn pick_longest2_counts_bytes() {
    assert_eq!(pick_longest2("ab", "é"), "ab");
    assert_eq!(pick_longest2("a", "é"), "é");
    assert_eq!(pick_longest2("", ""), "");
}

#[test]
fn find_lesser_values_test() {
    assert_eq!(
        find_lesser_values(&vec!["foo", "bar", "foobar"], "zzzzzzzz"),
        vec!["foo", "bar", "foobar"]
    );
    assert_eq!(find_lesser_values(&vec!["foo", "bar", "foobar"], "bars"), vec!["bar"]);
}

#[test]
fn find_lesser_values_leaves_out_equal_strings() {
    assert_eq!(find_lesser_values(&vec!["b", "a", "", "c"], "b"), vec!["a", ""]);
    assert_eq!(find_lesser_values(&vec!["a"], ""), Vec::<&str>::new());
}

#[test]
fn str_lt_agrees_with_the_standard_order() {
    let samples = ["", "a", "ab", "b", "ba", "B", "é", "z", "zz", "日本", "\u{10000}", "\u{ffff}"];
    for a in samples {
        for b in samples {
            assert_eq!(str_lt(a, b), a < b, "{:?} < {:?}", a, b);
            assert_eq!(str_eq(a, b), a == b, "{:?} == {:?}", a, b);
        }
    }
}
